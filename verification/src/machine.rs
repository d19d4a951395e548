//! Execution engine: register file, segmented memory model and the
//! fetch-decode-dispatch step.
//!
//! Memory is a list of regions scanned in insertion order; an address inside
//! a region but beyond its current backing length is mapped but
//! uninitialized (a recoverable condition — callers may substitute zero),
//! an address inside no region is unmapped (a hard access fault).  Writes
//! into the mapped-but-ungrown range grow the backing store, zero-filling
//! the gap.  Multi-byte accesses read and write in increasing address order
//! and assemble the value least-significant byte first, the same order the
//! object stream uses.
//!
//! The decoder reads the full six opcode bits and the conventional field
//! positions of the codec's word layout, the program counter advances by the
//! four-byte instruction width, and subtraction really subtracts — each a
//! deliberate resolution of a defect in earlier tooling around this model.

use vstd::prelude::*;
use vstd::bytes::spec_u32_from_le_bytes;
use vstd::bytes::spec_u16_from_le_bytes;
use vstd::bytes::u16_from_le_bytes;
use vstd::bytes::u32_from_le_bytes;
use crate::codec::word_funct;
use crate::codec::word_imm;
use crate::codec::word_opcode;
use crate::codec::word_rd;
use crate::codec::word_rs;
use crate::codec::word_rt;
use crate::codec::word_shamt;
use crate::errors::ExecError;

verus! {

/// Base address of the text segment.
pub const DOT_TEXT: u32 = 0x00400000;

/// Maximum length of the text segment's region.
pub const DOT_TEXT_MAX_LENGTH: u32 = 0x1000;

/// One mapped memory region: backing bytes, base address, maximum length.
pub struct MemRegion {
    pub data: Vec<u8>,
    pub base: u32,
    pub max_len: u32,
}

/// The mathematical model of a region.
pub struct RegionView {
    pub data: Seq<u8>,
    pub base: u32,
    pub max_len: u32,
}

impl View for MemRegion {
    type V = RegionView;

    open spec fn view(&self) -> RegionView {
        RegionView { data: self.data@, base: self.base, max_len: self.max_len }
    }
}

/// The models of a region list.
pub open spec fn mems_view(ms: Seq<MemRegion>) -> Seq<RegionView> {
    ms.map_values(|m: MemRegion| m@)
}

/// The address lies inside the region's mapped range.
pub open spec fn region_contains(r: RegionView, addr: u32) -> bool {
    r.base <= addr && addr < r.base + r.max_len
}

/// Index of the first region whose range contains the address, scanning in
/// insertion order.
pub open spec fn region_of(mems: Seq<RegionView>, addr: u32) -> Option<int>
    decreases mems.len(),
{
    if mems.len() == 0 {
        None
    } else if region_contains(mems[0], addr) {
        Some(0int)
    } else {
        match region_of(mems.drop_first(), addr) {
            Some(j) => Some(j + 1),
            None => None,
        }
    }
}

/// When none of the first `j` regions contains the address, the scan result
/// is decided by the rest of the list.
proof fn lemma_region_of_skip(mems: Seq<RegionView>, j: int, addr: u32)
    requires
        0 <= j <= mems.len(),
        forall|k: int| 0 <= k < j ==> !region_contains(#[trigger] mems[k], addr),
    ensures
        region_of(mems, addr) == (match region_of(mems.skip(j), addr) {
            Some(x) => Some(x + j),
            None => None::<int>,
        }),
    decreases j,
{
    if j == 0 {
        assert(mems.skip(0) =~= mems);
    } else {
        lemma_region_of_skip(mems.drop_first(), j - 1, addr);
        assert(mems.drop_first().skip(j - 1) =~= mems.skip(j));
    }
}

/// What reading one byte yields: a hard fault outside every region, a
/// recoverable uninitialized-access report inside a region but beyond its
/// backing length, the stored byte otherwise.
pub open spec fn read_b_spec(mems: Seq<RegionView>, addr: u32) -> Result<u8, ExecError> {
    match region_of(mems, addr) {
        None => Err(ExecError::MemoryUnknownAccess),
        Some(j) => {
            let off = addr - mems[j].base;
            if off < mems[j].data.len() {
                Ok(mems[j].data[off])
            } else {
                Err(ExecError::MemoryObviouslyUninitializedAccess)
            }
        },
    }
}

/// What reading a halfword yields: the two bytes in increasing address
/// order, assembled least-significant first.
pub open spec fn read_h_spec(mems: Seq<RegionView>, addr: u32) -> Result<u16, ExecError>
    recommends
        addr + 1 <= u32::MAX,
{
    match (read_b_spec(mems, addr), read_b_spec(mems, (addr + 1) as u32)) {
        (Ok(b0), Ok(b1)) => Ok(spec_u16_from_le_bytes(seq![b0, b1])),
        (Err(e), _) => Err(e),
        (_, Err(e)) => Err(e),
    }
}

/// What reading a word yields: the four bytes in increasing address order,
/// assembled least-significant first.
pub open spec fn read_w_spec(mems: Seq<RegionView>, addr: u32) -> Result<u32, ExecError>
    recommends
        addr + 3 <= u32::MAX,
{
    match (
        read_b_spec(mems, addr),
        read_b_spec(mems, (addr + 1) as u32),
        read_b_spec(mems, (addr + 2) as u32),
        read_b_spec(mems, (addr + 3) as u32),
    ) {
        (Ok(b0), Ok(b1), Ok(b2), Ok(b3)) => Ok(spec_u32_from_le_bytes(seq![b0, b1, b2, b3])),
        (Err(e), _, _, _) => Err(e),
        (_, Err(e), _, _) => Err(e),
        (_, _, Err(e), _) => Err(e),
        (_, _, _, Err(e)) => Err(e),
    }
}

/// The backing bytes grown (zero-filled) so that offset `off` exists.
pub open spec fn grown(data: Seq<u8>, off: int) -> Seq<u8> {
    if off < data.len() {
        data
    } else {
        data + Seq::new((off + 1 - data.len()) as nat, |x: int| 0u8)
    }
}

/// What writing one byte leaves behind: a hard fault outside every region;
/// otherwise the first containing region, its backing store grown to the
/// offset if needed, updated at the offset.
pub open spec fn write_b_result(mems: Seq<RegionView>, addr: u32, value: u8) -> Result<
    Seq<RegionView>,
    ExecError,
> {
    match region_of(mems, addr) {
        None => Err(ExecError::MemoryUnknownAccess),
        Some(j) => {
            let off = addr - mems[j].base;
            Ok(
                mems.update(
                    j,
                    RegionView {
                        data: grown(mems[j].data, off).update(off, value),
                        base: mems[j].base,
                        max_len: mems[j].max_len,
                    },
                ),
            )
        },
    }
}

/// What writing a halfword leaves: its two little-endian bytes written in
/// increasing address order.
pub open spec fn write_h_result(mems: Seq<RegionView>, addr: u32, value: u16) -> Result<
    Seq<RegionView>,
    ExecError,
>
    recommends
        addr + 1 <= u32::MAX,
{
    match write_b_result(mems, addr, (value & 0xff) as u8) {
        Ok(m1) => write_b_result(m1, (addr + 1) as u32, ((value >> 8u16) & 0xff) as u8),
        Err(e) => Err(e),
    }
}

/// What writing a word leaves: its four little-endian bytes written in
/// increasing address order.
pub open spec fn write_w_result(mems: Seq<RegionView>, addr: u32, value: u32) -> Result<
    Seq<RegionView>,
    ExecError,
>
    recommends
        addr + 3 <= u32::MAX,
{
    match write_b_result(mems, addr, (value & 0xff) as u8) {
        Ok(m1) => match write_b_result(m1, (addr + 1) as u32, ((value >> 8u32) & 0xff) as u8) {
            Ok(m2) => match write_b_result(
                m2,
                (addr + 2) as u32,
                ((value >> 16u32) & 0xff) as u8,
            ) {
                Ok(m3) => write_b_result(m3, (addr + 3) as u32, ((value >> 24u32) & 0xff) as u8),
                Err(e) => Err(e),
            },
            Err(e) => Err(e),
        },
        Err(e) => Err(e),
    }
}

/// A decoded instruction of the modeled subset's two formats.
#[derive(Clone, Copy, Debug)]
pub enum Decoded {
    R { rs: u8, rt: u8, rd: u8, shamt: u8, funct: u8 },
    I { opcode: u8, rs: u8, rt: u8, imm: u16 },
}

/// What decoding yields: opcode zero selects the R format, anything else
/// the I format, each field taken from the codec's bit positions.
pub open spec fn decode_spec(w: u32) -> Decoded {
    if word_opcode(w) == 0 {
        Decoded::R {
            rs: word_rs(w),
            rt: word_rt(w),
            rd: word_rd(w),
            shamt: word_shamt(w),
            funct: word_funct(w),
        }
    } else {
        Decoded::I { opcode: word_opcode(w), rs: word_rs(w), rt: word_rt(w), imm: word_imm(w) }
    }
}

/// Every decoded register index and shift amount fits its five bits, and
/// the opcode and funct their six.
pub proof fn lemma_decode_fields_bounded(w: u32)
    by (bit_vector)
    ensures
        word_opcode(w) < 64,
        word_rs(w) < 32,
        word_rt(w) < 32,
        word_rd(w) < 32,
        word_shamt(w) < 32,
        word_funct(w) < 64,
{
}

/// The decoder agrees with the encoder's bit layout: decoding an encoded
/// R-type word recovers exactly the fields that went in, and likewise for
/// an I-type word (every I-type opcode in the catalog is nonzero).
pub proof fn lemma_decode_matches_encode(
    rs: u8,
    rt: u8,
    rd: u8,
    shamt: u8,
    funct: u8,
    opcode: u8,
    imm: u16,
)
    requires
        rs < 32,
        rt < 32,
        rd < 32,
        shamt < 32,
        funct < 64,
        0 < opcode < 64,
    ensures
        decode_spec(crate::codec::r_word(rs, rt, rd, shamt, funct)) == (Decoded::R {
            rs,
            rt,
            rd,
            shamt,
            funct,
        }),
        decode_spec(crate::codec::i_word(opcode, rs, rt, imm)) == (Decoded::I {
            opcode,
            rs,
            rt,
            imm,
        }),
{
    crate::codec::lemma_r_round_trip(rs, rt, rd, shamt, funct);
    crate::codec::lemma_i_round_trip(opcode, rs, rt, imm);
}

/// What dispatching an R-type instruction does to the register file:
/// shifts read `rt`, the arithmetic and logical operations read `rs` and
/// `rt`, and each writes `rd`; addition and subtraction wrap.  Any other
/// funct is an unimplemented instruction, a fatal condition.
pub open spec fn dispatch_r_spec(regs: Seq<u32>, rs: u8, rt: u8, rd: u8, shamt: u8, funct: u8) -> Result<
    Seq<u32>,
    ExecError,
>
    recommends
        regs.len() == 32,
        rs < 32,
        rt < 32,
        rd < 32,
        shamt < 32,
{
    let a = regs[rs as int];
    let b = regs[rt as int];
    if funct == 0x00 {
        Ok(regs.update(rd as int, b << (shamt as u32)))
    } else if funct == 0x02 {
        Ok(regs.update(rd as int, b >> (shamt as u32)))
    } else if funct == 0x20 {
        Ok(regs.update(rd as int, vstd::prelude::add(a, b)))
    } else if funct == 0x22 {
        Ok(regs.update(rd as int, vstd::prelude::sub(a, b)))
    } else if funct == 0x26 {
        Ok(regs.update(rd as int, a ^ b))
    } else {
        Err(ExecError::UnimplementedInstruction)
    }
}

/// What dispatching an I-type instruction does: or-immediate zero-extends
/// the immediate into an or with `rs`, load-upper-immediate places the
/// immediate in the upper half; both write `rt`.  Any other opcode is an
/// unimplemented instruction.
pub open spec fn dispatch_i_spec(regs: Seq<u32>, opcode: u8, rs: u8, rt: u8, imm: u16) -> Result<
    Seq<u32>,
    ExecError,
>
    recommends
        regs.len() == 32,
        rs < 32,
        rt < 32,
{
    if opcode == 0xd {
        Ok(regs.update(rt as int, regs[rs as int] | (imm as u32)))
    } else if opcode == 0xf {
        Ok(regs.update(rt as int, (imm as u32) << 16u32))
    } else {
        Err(ExecError::UnimplementedInstruction)
    }
}

/// The machine state: 32 general-purpose registers, the multiply/divide
/// result registers, the program counter, and the mapped memory regions.
/// Register 0 is conventionally the hard-wired zero register, but nothing
/// here forces it to stay zero.
pub struct Mips {
    pub regs: Vec<u32>,
    pub mult_hi: u32,
    pub mult_lo: u32,
    pub pc: u32,
    pub memories: Vec<MemRegion>,
}

impl Mips {
    /// Well-formed machine state: exactly 32 registers, and no backing
    /// store grown past its region's maximum length.
    pub open spec fn wf(&self) -> bool {
        &&& self.regs@.len() == 32
        &&& forall|j: int|
            0 <= j < self.memories@.len() ==> (#[trigger] self.memories@[j]).data@.len()
                <= self.memories@[j].max_len
    }
}

impl Default for Mips {
    /// The initial machine: zeroed registers, the program counter at the
    /// text-segment base, and one empty text region mapped there.
    fn default() -> (m: Self)
        ensures
            m.wf(),
            m.regs@.len() == 32,
            forall|k: int| 0 <= k < 32 ==> m.regs@[k] == 0u32,
            m.mult_hi == 0,
            m.mult_lo == 0,
            m.pc == DOT_TEXT,
            m.memories@.len() == 1,
            m.memories@[0].data@.len() == 0,
            m.memories@[0].base == DOT_TEXT,
            m.memories@[0].max_len == DOT_TEXT_MAX_LENGTH,
    {
        let mut regs: Vec<u32> = Vec::new();
        while regs.len() < 32
            invariant
                regs@.len() <= 32,
                forall|k: int| 0 <= k < regs@.len() ==> regs@[k] == 0u32,
            decreases 32 - regs@.len(),
        {
            regs.push(0);
        }
        let mut memories: Vec<MemRegion> = Vec::new();
        memories.push(MemRegion { data: Vec::new(), base: DOT_TEXT, max_len: DOT_TEXT_MAX_LENGTH });
        Mips { regs, mult_hi: 0, mult_lo: 0, pc: DOT_TEXT, memories }
    }
}

impl Mips {
    /// Scans the regions in insertion order for the first one containing
    /// the address, yielding its index and the offset into it.
    fn region_index(&self, address: u32) -> (r: Option<(usize, u32)>)
        ensures
            match r {
                Some(p) => {
                    &&& region_of(mems_view(self.memories@), address) == Some(p.0 as int)
                    &&& p.0 < self.memories@.len()
                    &&& region_contains(self.memories@[p.0 as int]@, address)
                    &&& p.1 == address - self.memories@[p.0 as int].base
                },
                None => region_of(mems_view(self.memories@), address) is None,
            },
    {
        let ghost mv = mems_view(self.memories@);
        proof {
            assert forall|k: int| 0 <= k < self.memories@.len() implies mv[k]
                == self.memories@[k]@ by {}
        }
        let mut j: usize = 0;
        while j < self.memories.len()
            invariant
                j <= self.memories@.len(),
                mv == mems_view(self.memories@),
                mv.len() == self.memories@.len(),
                forall|k: int| 0 <= k < j ==> !region_contains(#[trigger] mv[k], address),
            decreases self.memories@.len() - j,
        {
            let base = self.memories[j].base;
            let max_len = self.memories[j].max_len;
            if address >= base && address - base < max_len {
                proof {
                    lemma_region_of_skip(mv, j as int, address);
                    assert(mv.skip(j as int)[0] == mv[j as int]);
                }
                return Some((j, address - base));
            }
            j += 1;
        }
        proof {
            lemma_region_of_skip(mv, j as int, address);
            assert(mv.skip(j as int) =~= Seq::<RegionView>::empty());
        }
        None
    }

    /// Reads one byte, distinguishing unmapped addresses (fatal) from
    /// mapped-but-uninitialized ones (recoverable).
    pub fn read_b(&self, address: u32) -> (r: Result<u8, ExecError>)
        ensures
            r == read_b_spec(mems_view(self.memories@), address),
    {
        match self.region_index(address) {
            Some(p) => {
                let (j, off) = p;
                if (off as usize) < self.memories[j].data.len() {
                    Ok(self.memories[j].data[off as usize])
                } else {
                    Err(ExecError::MemoryObviouslyUninitializedAccess)
                }
            },
            None => Err(ExecError::MemoryUnknownAccess),
        }
    }

    /// Reads a halfword: two byte reads in increasing address order,
    /// reassembled least-significant byte first.
    pub fn read_h(&self, address: u32) -> (r: Result<u16, ExecError>)
        requires
            address + 1 <= u32::MAX,
        ensures
            r == read_h_spec(mems_view(self.memories@), address),
    {
        let b0 = self.read_b(address)?;
        let b1 = self.read_b(address + 1)?;
        let bytes = vec![b0, b1];
        Ok(u16_from_le_bytes(bytes.as_slice()))
    }

    /// Reads a word: four byte reads in increasing address order,
    /// reassembled least-significant byte first.
    pub fn read_w(&self, address: u32) -> (r: Result<u32, ExecError>)
        requires
            address + 3 <= u32::MAX,
        ensures
            r == read_w_spec(mems_view(self.memories@), address),
    {
        let b0 = self.read_b(address)?;
        let b1 = self.read_b(address + 1)?;
        let b2 = self.read_b(address + 2)?;
        let b3 = self.read_b(address + 3)?;
        let bytes = vec![b0, b1, b2, b3];
        Ok(u32_from_le_bytes(bytes.as_slice()))
    }

    /// Writes one byte, growing the backing store (zero-filled) when the
    /// address is mapped but not yet backed.
    pub fn write_b(&mut self, address: u32, value: u8) -> (r: Result<(), ExecError>)
        requires
            old(self).wf(),
        ensures
            final(self).wf(),
            final(self).regs == old(self).regs,
            final(self).mult_hi == old(self).mult_hi,
            final(self).mult_lo == old(self).mult_lo,
            final(self).pc == old(self).pc,
            match write_b_result(mems_view(old(self).memories@), address, value) {
                Ok(nv) => r is Ok && mems_view(final(self).memories@) == nv,
                Err(e) => r == Err::<(), ExecError>(e) && final(self).memories@ == old(self).memories@,
            },
    {
        let ghost old_mems = mems_view(self.memories@);
        match self.region_index(address) {
            None => Err(ExecError::MemoryUnknownAccess),
            Some(p) => {
                let (j, off) = p;
                let off_us = off as usize;
                let mut region = self.memories.remove(j);
                let ghost old_region = region@;
                while region.data.len() <= off_us
                    invariant
                        region.base == old_region.base,
                        region.max_len == old_region.max_len,
                        old_region.data.len() <= region.data@.len(),
                        region.data@.len() <= off_us + 1 || region.data@.len()
                            == old_region.data.len(),
                        region.data@ == grown(old_region.data, off_us as int).take(
                            region.data@.len() as int,
                        ),
                    decreases off_us + 1 - region.data@.len(),
                {
                    region.data.push(0);
                    proof {
                        assert(region.data@ =~= grown(old_region.data, off_us as int).take(
                            region.data@.len() as int,
                        ));
                    }
                }
                proof {
                    assert(region.data@ =~= grown(old_region.data, off as int));
                }
                region.data[off_us] = value;
                let ghost new_region = region@;
                self.memories.insert(j, region);
                proof {
                    assert(self.memories@ =~= old(self).memories@.update(j as int, region));
                    assert(mems_view(self.memories@) =~= old_mems.update(
                        j as int,
                        RegionView {
                            data: grown(old_mems[j as int].data, off as int).update(
                                off as int,
                                value,
                            ),
                            base: old_mems[j as int].base,
                            max_len: old_mems[j as int].max_len,
                        },
                    ));
                }
                Ok(())
            },
        }
    }

    /// Writes a halfword: its two little-endian bytes in increasing address
    /// order.
    pub fn write_h(&mut self, address: u32, value: u16) -> (r: Result<(), ExecError>)
        requires
            old(self).wf(),
            address + 1 <= u32::MAX,
        ensures
            final(self).wf(),
            final(self).regs == old(self).regs,
            final(self).mult_hi == old(self).mult_hi,
            final(self).mult_lo == old(self).mult_lo,
            final(self).pc == old(self).pc,
            match write_h_result(mems_view(old(self).memories@), address, value) {
                Ok(nv) => r is Ok && mems_view(final(self).memories@) == nv,
                Err(e) => r == Err::<(), ExecError>(e),
            },
    {
        proof {
            assert(value & 0xff < 256 && (value >> 8u16) & 0xff < 256) by (bit_vector);
        }
        self.write_b(address, (value & 0xff) as u8)?;
        self.write_b(address + 1, ((value >> 8u16) & 0xff) as u8)?;
        Ok(())
    }

    /// Writes a word: its four little-endian bytes in increasing address
    /// order.
    pub fn write_w(&mut self, address: u32, value: u32) -> (r: Result<(), ExecError>)
        requires
            old(self).wf(),
            address + 3 <= u32::MAX,
        ensures
            final(self).wf(),
            final(self).regs == old(self).regs,
            final(self).mult_hi == old(self).mult_hi,
            final(self).mult_lo == old(self).mult_lo,
            final(self).pc == old(self).pc,
            match write_w_result(mems_view(old(self).memories@), address, value) {
                Ok(nv) => r is Ok && mems_view(final(self).memories@) == nv,
                Err(e) => r == Err::<(), ExecError>(e),
            },
    {
        proof {
            assert(value & 0xff < 256 && (value >> 8u32) & 0xff < 256 && (value >> 16u32) & 0xff
                < 256 && (value >> 24u32) & 0xff < 256) by (bit_vector);
        }
        self.write_b(address, (value & 0xff) as u8)?;
        self.write_b(address + 1, ((value >> 8u32) & 0xff) as u8)?;
        self.write_b(address + 2, ((value >> 16u32) & 0xff) as u8)?;
        self.write_b(address + 3, ((value >> 24u32) & 0xff) as u8)?;
        Ok(())
    }

    /// Decodes a word into the modeled subset's fields.
    pub fn decode(&self, instruction: u32) -> (d: Decoded)
        ensures
            d == decode_spec(instruction),
    {
        proof {
            lemma_decode_fields_bounded(instruction);
        }
        let opcode = ((instruction >> 26u32) & 0x3f) as u8;
        if opcode == 0 {
            Decoded::R {
                rs: ((instruction >> 21u32) & 0x1f) as u8,
                rt: ((instruction >> 16u32) & 0x1f) as u8,
                rd: ((instruction >> 11u32) & 0x1f) as u8,
                shamt: ((instruction >> 6u32) & 0x1f) as u8,
                funct: (instruction & 0x3f) as u8,
            }
        } else {
            proof {
                assert(instruction & 0xffff <= 0xffff) by (bit_vector);
            }
            Decoded::I {
                opcode,
                rs: ((instruction >> 21u32) & 0x1f) as u8,
                rt: ((instruction >> 16u32) & 0x1f) as u8,
                imm: (instruction & 0xffff) as u16,
            }
        }
    }

    /// Dispatches an R-type instruction on its funct field.
    pub fn dispatch_r(&mut self, rs: u8, rt: u8, rd: u8, shamt: u8, funct: u8) -> (r: Result<
        (),
        ExecError,
    >)
        requires
            old(self).wf(),
            rs < 32,
            rt < 32,
            rd < 32,
            shamt < 32,
        ensures
            final(self).wf(),
            final(self).mult_hi == old(self).mult_hi,
            final(self).mult_lo == old(self).mult_lo,
            final(self).pc == old(self).pc,
            final(self).memories == old(self).memories,
            match dispatch_r_spec(old(self).regs@, rs, rt, rd, shamt, funct) {
                Ok(nregs) => r is Ok && final(self).regs@ == nregs,
                Err(e) => r == Err::<(), ExecError>(e) && final(self).regs@ == old(self).regs@,
            },
    {
        let a = self.regs[rs as usize];
        let b = self.regs[rt as usize];
        if funct == 0x00 {
            self.regs[rd as usize] = b << (shamt as u32);
            Ok(())
        } else if funct == 0x02 {
            self.regs[rd as usize] = b >> (shamt as u32);
            Ok(())
        } else if funct == 0x20 {
            let v = a.wrapping_add(b);
            proof {
                if a + b <= u32::MAX {
                    assert(v == vstd::prelude::add(a, b)) by (bit_vector)
                        requires
                            v == a + b,
                    ;
                } else {
                    assert(v == vstd::prelude::add(a, b)) by (bit_vector)
                        requires
                            v == a + b - 0x100000000,
                            a + b > 0xffffffff,
                    ;
                }
            }
            self.regs[rd as usize] = v;
            Ok(())
        } else if funct == 0x22 {
            let v = a.wrapping_sub(b);
            proof {
                if b <= a {
                    assert(v == vstd::prelude::sub(a, b)) by (bit_vector)
                        requires
                            v == a - b,
                            b <= a,
                    ;
                } else {
                    assert(v == vstd::prelude::sub(a, b)) by (bit_vector)
                        requires
                            v == a - b + 0x100000000,
                            b > a,
                    ;
                }
            }
            self.regs[rd as usize] = v;
            Ok(())
        } else if funct == 0x26 {
            self.regs[rd as usize] = a ^ b;
            Ok(())
        } else {
            Err(ExecError::UnimplementedInstruction)
        }
    }

    /// Dispatches an I-type instruction on its opcode.
    pub fn dispatch_i(&mut self, opcode: u8, rs: u8, rt: u8, imm: u16) -> (r: Result<(), ExecError>)
        requires
            old(self).wf(),
            rs < 32,
            rt < 32,
        ensures
            final(self).wf(),
            final(self).mult_hi == old(self).mult_hi,
            final(self).mult_lo == old(self).mult_lo,
            final(self).pc == old(self).pc,
            final(self).memories == old(self).memories,
            match dispatch_i_spec(old(self).regs@, opcode, rs, rt, imm) {
                Ok(nregs) => r is Ok && final(self).regs@ == nregs,
                Err(e) => r == Err::<(), ExecError>(e) && final(self).regs@ == old(self).regs@,
            },
    {
        if opcode == 0xd {
            // Zero-extension of the immediate on the up-cast.
            self.regs[rt as usize] = self.regs[rs as usize] | (imm as u32);
            Ok(())
        } else if opcode == 0xf {
            self.regs[rt as usize] = (imm as u32) << 16u32;
            Ok(())
        } else {
            Err(ExecError::UnimplementedInstruction)
        }
    }

    /// One fetch-decode-dispatch step: reads the word at the program
    /// counter, advances the counter by the instruction width, and
    /// dispatches.  A fetch fault leaves the machine unchanged; an
    /// unimplemented instruction is reported after the counter has
    /// advanced.
    pub fn step_one(&mut self) -> (r: Result<(), ExecError>)
        requires
            old(self).wf(),
            old(self).pc + 4 <= u32::MAX,
        ensures
            final(self).wf(),
            final(self).mult_hi == old(self).mult_hi,
            final(self).mult_lo == old(self).mult_lo,
            final(self).memories == old(self).memories,
            match read_w_spec(mems_view(old(self).memories@), old(self).pc) {
                Err(e) => r == Err::<(), ExecError>(e) && final(self).pc == old(self).pc && final(self).regs@ == old(self).regs@,
                Ok(w) => final(self).pc == old(self).pc + 4 && (match decode_spec(w) {
                    Decoded::R { rs, rt, rd, shamt, funct } => match dispatch_r_spec(
                        old(self).regs@,
                        rs,
                        rt,
                        rd,
                        shamt,
                        funct,
                    ) {
                        Ok(nregs) => r is Ok && final(self).regs@ == nregs,
                        Err(e) => r == Err::<(), ExecError>(e) && final(self).regs@ == old(self).regs@,
                    },
                    Decoded::I { opcode, rs, rt, imm } => match dispatch_i_spec(
                        old(self).regs@,
                        opcode,
                        rs,
                        rt,
                        imm,
                    ) {
                        Ok(nregs) => r is Ok && final(self).regs@ == nregs,
                        Err(e) => r == Err::<(), ExecError>(e) && final(self).regs@ == old(self).regs@,
                    },
                }),
            },
    {
        let word = self.read_w(self.pc)?;
        self.pc = self.pc + 4;
        proof {
            lemma_decode_fields_bounded(word);
        }
        let instruction = self.decode(word);
        match instruction {
            Decoded::R { rs, rt, rd, shamt, funct } => self.dispatch_r(rs, rt, rd, shamt, funct),
            Decoded::I { opcode, rs, rt, imm } => self.dispatch_i(opcode, rs, rt, imm),
        }
    }
}

} // verus!
