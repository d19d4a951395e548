//! Field codec: bit-level pack and unpack primitives shared by the encoder
//! and the decoder.
//!
//! The three MIPS word layouts are
//! - R-type: `[opcode:6][rs:5][rt:5][rd:5][shamt:5][funct:6]`, opcode 0,
//! - I-type: `[opcode:6][rs:5][rt:5][imm:16]`,
//! - J-type: `[opcode:6][target:26]`.
//!
//! Words are emitted least-significant byte first; the execution engine's
//! fetch path uses the same order (see `spec_u32_to_le_bytes`).

use vstd::prelude::*;
use vstd::arithmetic::power2::pow2;
use vstd::bits::lemma_u32_shl_is_mul;
use vstd::bits::lemma_u32_pow2_no_overflow;
use vstd::bytes::spec_u32_to_le_bytes;
use vstd::bytes::u32_to_le_bytes;
use crate::errors::AsmError;

verus! {

/// A field value occupies no more than `width` bits.
pub open spec fn fits(value: u32, width: u8) -> bool
    recommends
        width < 32,
{
    value < (1u32 << (width as u32))
}

/// `fits` is exactly the comparison against two to the `width`.
pub proof fn lemma_fits_is_pow2(value: u32, width: u8)
    requires
        width < 32,
    ensures
        fits(value, width) <==> (value as nat) < pow2(width as nat),
{
    lemma_u32_pow2_no_overflow(width as nat);
    lemma_u32_shl_is_mul(1u32, width as u32);
}

/// What `mask_u8` returns: the value unchanged when it fits in `x` bits,
/// an overflow error otherwise.
pub open spec fn spec_mask_u8(n: u8, x: u8) -> Result<u8, AsmError> {
    if fits(n as u32, x) {
        Ok(n)
    } else {
        Err(AsmError::Overflow)
    }
}

/// What `mask_u32` returns.
pub open spec fn spec_mask_u32(n: u32, x: u8) -> Result<u32, AsmError> {
    if fits(n, x) {
        Ok(n)
    } else {
        Err(AsmError::Overflow)
    }
}

/// Strict range assertion on a field value: `Ok(n)` exactly when `n` fits in
/// `x` bits, never a truncation.
pub fn mask_u8(n: u8, x: u8) -> (r: Result<u8, AsmError>)
    requires
        x < 8,
    ensures
        r == spec_mask_u8(n, x),
{
    proof {
        assert(1u8 << x >= 1) by (bit_vector)
            requires
                x < 8,
        ;
    }
    let bitmask: u8 = (1u8 << x) - 1;
    let out = n & bitmask;
    proof {
        assert((n & vstd::prelude::sub(1u8 << x, 1) == n) == ((n as u32) < (1u32 << (x as u32))))
            by (bit_vector)
            requires
                x < 8,
        ;
    }
    if out != n {
        Err(AsmError::Overflow)
    } else {
        Ok(out)
    }
}

/// Strict range assertion on a 32-bit field value.
pub fn mask_u32(n: u32, x: u8) -> (r: Result<u32, AsmError>)
    requires
        x < 32,
    ensures
        r == spec_mask_u32(n, x),
{
    proof {
        assert(1u32 << (x as u32) >= 1) by (bit_vector)
            requires
                x < 32,
        ;
    }
    let bitmask: u32 = (1u32 << (x as u32)) - 1;
    let out = n & bitmask;
    proof {
        assert((n & vstd::prelude::sub(1u32 << (x as u32), 1) == n) == (n < (1u32 << (x as u32))))
            by (bit_vector)
            requires
                x < 32,
        ;
    }
    if out != n {
        Err(AsmError::Overflow)
    } else {
        Ok(out)
    }
}

/// Masking is idempotent, and it fails exactly on the values that exceed the
/// field width: `mask(v, w)` succeeds with `v` itself when `v < 2^w` and
/// fails with an overflow otherwise, so a second application changes nothing.
pub proof fn lemma_mask_idempotent(v: u32, w: u8)
    requires
        w < 32,
    ensures
        spec_mask_u32(v, w) matches Ok(m) ==> spec_mask_u32(m, w) == spec_mask_u32(v, w),
        spec_mask_u32(v, w) is Err <==> (v as nat) >= pow2(w as nat),
        spec_mask_u32(v, w) matches Ok(m) && m == v <==> (v as nat) < pow2(w as nat),
{
    lemma_fits_is_pow2(v, w);
}

/// The idempotence and failure law, for the 8-bit variant.
pub proof fn lemma_mask_u8_idempotent(v: u8, w: u8)
    requires
        w < 8,
    ensures
        spec_mask_u8(v, w) matches Ok(m) ==> spec_mask_u8(m, w) == spec_mask_u8(v, w),
        spec_mask_u8(v, w) is Err <==> (v as nat) >= pow2(w as nat),
{
    lemma_fits_is_pow2(v as u32, w);
}

/// The R-type word for the given field values: opcode 0, then `rs`, `rt`,
/// `rd`, `shamt` and `funct` from bit 25 down to bit 0.
pub open spec fn r_word(rs: u8, rt: u8, rd: u8, shamt: u8, funct: u8) -> u32 {
    ((rs as u32) << 21u32) | ((rt as u32) << 16u32) | ((rd as u32) << 11u32) | ((shamt as u32)
        << 6u32) | (funct as u32)
}

/// The I-type word for the given field values.
pub open spec fn i_word(opcode: u8, rs: u8, rt: u8, imm: u16) -> u32 {
    ((opcode as u32) << 26u32) | ((rs as u32) << 21u32) | ((rt as u32) << 16u32) | (imm as u32)
}

/// The J-type word: opcode over a 26-bit target.
pub open spec fn j_word(opcode: u8, target: u32) -> u32
    recommends
        fits(target, 26),
{
    ((opcode as u32) << 26u32) | target
}

/// Bits 31 to 26 of a word.
pub open spec fn word_opcode(w: u32) -> u8 {
    ((w >> 26u32) & 0x3f) as u8
}

/// Bits 25 to 21.
pub open spec fn word_rs(w: u32) -> u8 {
    ((w >> 21u32) & 0x1f) as u8
}

/// Bits 20 to 16.
pub open spec fn word_rt(w: u32) -> u8 {
    ((w >> 16u32) & 0x1f) as u8
}

/// Bits 15 to 11.
pub open spec fn word_rd(w: u32) -> u8 {
    ((w >> 11u32) & 0x1f) as u8
}

/// Bits 10 to 6.
pub open spec fn word_shamt(w: u32) -> u8 {
    ((w >> 6u32) & 0x1f) as u8
}

/// Bits 5 to 0.
pub open spec fn word_funct(w: u32) -> u8 {
    (w & 0x3f) as u8
}

/// Bits 15 to 0.
pub open spec fn word_imm(w: u32) -> u16 {
    (w & 0xffff) as u16
}

/// Bits 25 to 0.
pub open spec fn word_target(w: u32) -> u32 {
    w & 0x3ffffff
}

/// Packs an R-type word by left-shift-and-or composition in strict bit
/// order.  Callers validate the fields with `mask_u8` first.
pub fn pack_r(rs: u8, rt: u8, rd: u8, shamt: u8, funct: u8) -> (w: u32)
    ensures
        w == r_word(rs, rt, rd, shamt, funct),
{
    let mut result: u32 = 0;
    result = (result << 6u32) | (rs as u32);
    result = (result << 5u32) | (rt as u32);
    result = (result << 5u32) | (rd as u32);
    result = (result << 5u32) | (shamt as u32);
    result = (result << 6u32) | (funct as u32);
    proof {
        let a = rs as u32;
        let b = rt as u32;
        let c = rd as u32;
        let d = shamt as u32;
        let e = funct as u32;
        assert((((((((((0u32 << 6u32) | a) << 5u32) | b) << 5u32) | c) << 5u32) | d) << 6u32) | e
            == (a << 21u32) | (b << 16u32) | (c << 11u32) | (d << 6u32) | e) by (bit_vector)
            requires
                a < 256 && b < 256 && c < 256 && d < 256 && e < 256,
        ;
    }
    result
}

/// Packs an I-type word.
pub fn pack_i(opcode: u8, rs: u8, rt: u8, imm: u16) -> (w: u32)
    ensures
        w == i_word(opcode, rs, rt, imm),
{
    let mut result: u32 = opcode as u32;
    result = (result << 5u32) | (rs as u32);
    result = (result << 5u32) | (rt as u32);
    result = (result << 16u32) | (imm as u32);
    proof {
        let a = opcode as u32;
        let b = rs as u32;
        let c = rt as u32;
        let d = imm as u32;
        assert((((((a << 5u32) | b) << 5u32) | c) << 16u32) | d == (a << 26u32) | (b << 21u32) | (c
            << 16u32) | d) by (bit_vector)
            requires
                a < 256 && b < 256 && c < 256 && d < 0x10000,
        ;
    }
    result
}

/// Packs a J-type word from a 26-bit target.
pub fn pack_j(opcode: u8, target: u32) -> (w: u32)
    requires
        fits(target, 26),
    ensures
        w == j_word(opcode, target),
{
    ((opcode as u32) << 26u32) | target
}

/// Round trip for R-type words: decoding an encoded word with the matching
/// bit layout recovers every field exactly, and the opcode reads zero.
pub proof fn lemma_r_round_trip(rs: u8, rt: u8, rd: u8, shamt: u8, funct: u8)
    by (bit_vector)
    requires
        rs < 32,
        rt < 32,
        rd < 32,
        shamt < 32,
        funct < 64,
    ensures
        word_opcode(r_word(rs, rt, rd, shamt, funct)) == 0,
        word_rs(r_word(rs, rt, rd, shamt, funct)) == rs,
        word_rt(r_word(rs, rt, rd, shamt, funct)) == rt,
        word_rd(r_word(rs, rt, rd, shamt, funct)) == rd,
        word_shamt(r_word(rs, rt, rd, shamt, funct)) == shamt,
        word_funct(r_word(rs, rt, rd, shamt, funct)) == funct,
{
}

/// Round trip for I-type words.
pub proof fn lemma_i_round_trip(opcode: u8, rs: u8, rt: u8, imm: u16)
    by (bit_vector)
    requires
        opcode < 64,
        rs < 32,
        rt < 32,
    ensures
        word_opcode(i_word(opcode, rs, rt, imm)) == opcode,
        word_rs(i_word(opcode, rs, rt, imm)) == rs,
        word_rt(i_word(opcode, rs, rt, imm)) == rt,
        word_imm(i_word(opcode, rs, rt, imm)) == imm,
{
}

/// Round trip for J-type words.
pub proof fn lemma_j_round_trip(opcode: u8, target: u32)
    by (bit_vector)
    requires
        opcode < 64,
        target < 0x4000000,
    ensures
        word_opcode(j_word(opcode, target)) == opcode,
        word_target(j_word(opcode, target)) == target,
{
}

/// Serializes a word to its four bytes, least-significant byte first, the
/// canonical object-stream order.
pub fn emit_word(w: u32) -> (b: Vec<u8>)
    ensures
        b@ == spec_u32_to_le_bytes(w),
        b@.len() == 4,
{
    u32_to_le_bytes(w)
}

} // verus!
