//! Assembler pipeline: address and label assignment (pass one) and encoding
//! and emission (pass two) over a flat statement sequence.
//!
//! The address counter starts at the text-segment base; a label statement
//! records the current address without advancing it, a directive advances
//! nothing, and an instruction advances it by the fixed four-byte MIPS
//! instruction width.  Pass two re-walks the sequence with the counter reset
//! and encodes each instruction against the catalog, the register naming
//! rules and the label table.
//!
//! Branch immediates are encoded as the label address minus the branch's own
//! address, in 16-bit two's complement, without the division by the word
//! width that conventional MIPS assemblers apply: this deliberately keeps
//! the byte-distance encoding that the surrounding toolchain expects.

use vstd::prelude::*;
use vstd::bytes::spec_u32_to_le_bytes;
use crate::catalog::I;
use crate::catalog::IForm;
use crate::catalog::J;
use crate::catalog::R;
use crate::catalog::RForm;
use crate::catalog::i_desc;
use crate::catalog::i_operation;
use crate::catalog::j_desc;
use crate::catalog::j_operation;
use crate::catalog::r_desc;
use crate::catalog::r_operation;
use crate::codec::emit_word;
use crate::codec::fits;
use crate::codec::i_word;
use crate::codec::j_word;
use crate::codec::mask_u32;
use crate::codec::mask_u8;
use crate::codec::pack_i;
use crate::codec::pack_j;
use crate::codec::pack_r;
use crate::codec::r_word;
use crate::codec::spec_mask_u32;
use crate::codec::spec_mask_u8;
use crate::errors::AsmError;
use crate::labels::LabelTable;
use crate::numparse::base_parse;
use crate::numparse::spec_base_parse;
use crate::regs::assemble_reg;
use crate::regs::reg_spec;
use crate::strutil::str_eq;
use vstd::string::StringExecFns;

verus! {

/// Base address of the text segment.
pub const TEXT_ADDRESS_BASE: u32 = 0x400000;

/// The fixed width of one encoded instruction, in bytes.
pub const MIPS_INSTR_BYTE_WIDTH: u32 = 4;

/// One statement of the (already preprocessed and parsed) source: a label
/// declaration, a directive with its arguments, or an instruction with its
/// ordered operand tokens.
pub enum Statement {
    Label(String),
    Directive(String, Vec<String>),
    Instruction(String, Vec<String>),
}

/// One record of the line-info side channel, one per encoded instruction.
pub struct LineRecord {
    pub instr_addr: u32,
    pub line_number: u32,
    pub line_contents: String,
    pub pseudo_op: String,
}

/// How many instruction statements the sequence holds.
pub open spec fn instr_count(stmts: Seq<Statement>) -> nat
    decreases stmts.len(),
{
    if stmts.len() == 0 {
        0
    } else {
        (instr_count(stmts.drop_last()) + (if stmts.last() is Instruction {
            1nat
        } else {
            0nat
        })) as nat
    }
}

/// A prefix never holds more instructions than the whole sequence.
pub proof fn lemma_instr_count_prefix(stmts: Seq<Statement>, i: int)
    requires
        0 <= i <= stmts.len(),
    ensures
        instr_count(stmts.take(i)) <= instr_count(stmts),
    decreases stmts.len() - i,
{
    if i < stmts.len() {
        assert(stmts.take(i + 1).drop_last() =~= stmts.take(i));
        lemma_instr_count_prefix(stmts, i + 1);
    } else {
        assert(stmts.take(i) =~= stmts);
    }
}

/// The label table that pass one leaves behind: every label statement bound
/// to the address the counter had when it was reached, a later declaration
/// of the same name overriding an earlier one.
pub open spec fn pass1_map(stmts: Seq<Statement>, base: u32) -> Map<Seq<char>, u32>
    decreases stmts.len(),
{
    if stmts.len() == 0 {
        Map::empty()
    } else {
        match stmts.last() {
            Statement::Label(name) => pass1_map(stmts.drop_last(), base).insert(
                name@,
                (base + 4 * instr_count(stmts.drop_last())) as u32,
            ),
            _ => pass1_map(stmts.drop_last(), base),
        }
    }
}

/// Pass one: walks the statements once and records every label.
#[verifier::loop_isolation(false)]
pub fn build_label_table(stmts: &Vec<Statement>) -> (t: LabelTable)
    requires
        TEXT_ADDRESS_BASE + 4 * instr_count(stmts@) <= u32::MAX,
    ensures
        t@ == pass1_map(stmts@, TEXT_ADDRESS_BASE),
{
    let mut t = LabelTable::new();
    let mut addr: u32 = TEXT_ADDRESS_BASE;
    let mut i: usize = 0;
    while i < stmts.len()
        invariant
            i <= stmts@.len(),
            addr == TEXT_ADDRESS_BASE + 4 * instr_count(stmts@.take(i as int)),
            t@ == pass1_map(stmts@.take(i as int), TEXT_ADDRESS_BASE),
        decreases stmts@.len() - i,
    {
        proof {
            assert(stmts@.take(i + 1).drop_last() =~= stmts@.take(i as int));
            assert(stmts@.take(i + 1).last() == stmts@[i as int]);
            lemma_instr_count_prefix(stmts@, i + 1);
        }
        match &stmts[i] {
            Statement::Label(name) => {
                t.insert(name.clone(), addr);
            },
            Statement::Directive(_, _) => {},
            Statement::Instruction(_, _) => {
                addr = addr + MIPS_INSTR_BYTE_WIDTH;
            },
        }
        i += 1;
    }
    proof {
        assert(stmts@.take(stmts@.len() as int) =~= stmts@);
    }
    t
}

/// The statement declares a label of this name.
pub open spec fn is_label_named(s: Statement, name: Seq<char>) -> bool {
    s matches Statement::Label(n) && n@ == name
}

/// Pass one is order-independent for forward references: a label declared at
/// position `i`, and not redeclared later, is bound in the finished table to
/// the address of position `i`, whatever stands before or after it — in
/// particular a branch earlier in the source resolves it once pass one is
/// done.
pub proof fn lemma_label_table_complete(stmts: Seq<Statement>, i: int, name: Seq<char>, base: u32)
    requires
        0 <= i < stmts.len(),
        is_label_named(stmts[i], name),
        forall|j: int| i < j < stmts.len() ==> !(#[trigger] is_label_named(stmts[j], name)),
    ensures
        pass1_map(stmts, base).contains_key(name),
        pass1_map(stmts, base)[name] == (base + 4 * instr_count(stmts.take(i))) as u32,
    decreases stmts.len(),
{
    assert(stmts.drop_last() =~= stmts.take(stmts.len() - 1));
    if i == stmts.len() - 1 {
    } else {
        lemma_label_table_complete(stmts.take(stmts.len() - 1), i, name, base);
        assert(stmts.take(stmts.len() - 1).take(i) =~= stmts.take(i));
        assert(is_label_named(stmts[stmts.len() - 1], name) == false);
    }
}

/// A parsed 32-bit value truncated to the 16-bit immediate field, which is
/// carried in a 16-bit-wide value and needs no separate mask.
pub open spec fn imm16(v: u32) -> u16 {
    (v & 0xffff) as u16
}

/// The branch immediate: label address minus the branch instruction's own
/// address, in 16-bit two's complement — deliberately without the division
/// by the instruction width (see the module doc).
pub open spec fn branch_offset(target: u32, addr: u32) -> u16 {
    (vstd::prelude::sub(target, addr) & 0xffffu32) as u16
}

/// Validates every R-type field against its width, then packs the word.
pub open spec fn r_fields_word(rs: u8, rt: u8, rd: u8, shamt: u8, funct: u8) -> Result<
    u32,
    AsmError,
> {
    if fits(rs as u32, 5) && fits(rt as u32, 5) && fits(rd as u32, 5) && fits(shamt as u32, 5)
        && fits(funct as u32, 6) {
        Ok(r_word(rs, rt, rd, shamt, funct))
    } else {
        Err(AsmError::Overflow)
    }
}

/// Validates the I-type register and opcode fields, then packs the word.
pub open spec fn i_fields_word(opcode: u8, rs: u8, rt: u8, imm: u16) -> Result<u32, AsmError> {
    if fits(rs as u32, 5) && fits(rt as u32, 5) && fits(opcode as u32, 6) {
        Ok(i_word(opcode, rs, rt, imm))
    } else {
        Err(AsmError::Overflow)
    }
}

/// What assembling an R-type instruction yields for the given descriptor and
/// operand tokens.
pub open spec fn assemble_r_spec(r_struct: R, args: Seq<Seq<char>>) -> Result<u32, AsmError> {
    if args.len() != 3 {
        Err(AsmError::ArityMismatch)
    } else {
        match r_struct.form {
            RForm::RdRsRt => match (reg_spec(args[0]), reg_spec(args[1]), reg_spec(args[2])) {
                (Ok(rd), Ok(rs), Ok(rt)) => r_fields_word(rs, rt, rd, r_struct.shamt, r_struct.funct),
                (Err(e), _, _) => Err(e),
                (_, Err(e), _) => Err(e),
                (_, _, Err(e)) => Err(e),
            },
            RForm::RdRtShamt => match (
                reg_spec(args[0]),
                reg_spec(args[1]),
                spec_base_parse(args[2]),
            ) {
                (Ok(rd), Ok(rt), Ok(sh)) => match spec_mask_u32(sh, 5) {
                    Ok(v) => r_fields_word(0, rt, rd, v as u8, r_struct.funct),
                    Err(e) => Err(e),
                },
                (Err(e), _, _) => Err(e),
                (_, Err(e), _) => Err(e),
                (_, _, Err(e)) => Err(e),
            },
        }
    }
}

/// What assembling an I-type instruction yields.  Loads and stores given
/// only two operands default the immediate to zero; a branch resolves its
/// label against the pass-one table.
pub open spec fn assemble_i_spec(
    i_struct: I,
    args: Seq<Seq<char>>,
    labels: Map<Seq<char>, u32>,
    addr: u32,
) -> Result<u32, AsmError> {
    match i_struct.form {
        IForm::RtImm => {
            if args.len() != 2 {
                Err(AsmError::ArityMismatch)
            } else {
                match (reg_spec(args[0]), spec_base_parse(args[1])) {
                    (Ok(rt), Ok(v)) => i_fields_word(i_struct.opcode, 0, rt, imm16(v)),
                    (Err(e), _) => Err(e),
                    (_, Err(e)) => Err(e),
                }
            }
        },
        IForm::RtImmRs => {
            if args.len() == 2 {
                match (reg_spec(args[0]), reg_spec(args[1])) {
                    (Ok(rt), Ok(rs)) => i_fields_word(i_struct.opcode, rs, rt, 0u16),
                    (Err(e), _) => Err(e),
                    (_, Err(e)) => Err(e),
                }
            } else if args.len() == 3 {
                match (reg_spec(args[0]), spec_base_parse(args[1]), reg_spec(args[2])) {
                    (Ok(rt), Ok(v), Ok(rs)) => i_fields_word(i_struct.opcode, rs, rt, imm16(v)),
                    (Err(e), _, _) => Err(e),
                    (_, Err(e), _) => Err(e),
                    (_, _, Err(e)) => Err(e),
                }
            } else {
                Err(AsmError::ArityMismatch)
            }
        },
        IForm::RsRtLabel => {
            if args.len() != 3 {
                Err(AsmError::ArityMismatch)
            } else {
                match (reg_spec(args[0]), reg_spec(args[1])) {
                    (Ok(rs), Ok(rt)) => if labels.contains_key(args[2]) {
                        i_fields_word(
                            i_struct.opcode,
                            rs,
                            rt,
                            branch_offset(labels[args[2]], addr),
                        )
                    } else {
                        Err(AsmError::UndeclaredLabel)
                    },
                    (Err(e), _) => Err(e),
                    (_, Err(e)) => Err(e),
                }
            }
        },
        IForm::RtRsImm => {
            if args.len() != 3 {
                Err(AsmError::ArityMismatch)
            } else {
                match (reg_spec(args[0]), reg_spec(args[1]), spec_base_parse(args[2])) {
                    (Ok(rt), Ok(rs), Ok(v)) => i_fields_word(i_struct.opcode, rs, rt, imm16(v)),
                    (Err(e), _, _) => Err(e),
                    (_, Err(e), _) => Err(e),
                    (_, _, Err(e)) => Err(e),
                }
            }
        },
    }
}

/// What assembling a J-type instruction yields: the label's absolute address
/// must fit in 28 bits and is stored word-aligned, shifted right by two.
pub open spec fn assemble_j_spec(j_struct: J, args: Seq<Seq<char>>, labels: Map<Seq<char>, u32>) -> Result<
    u32,
    AsmError,
> {
    if args.len() != 1 {
        Err(AsmError::ArityMismatch)
    } else if !labels.contains_key(args[0]) {
        Err(AsmError::UndeclaredLabel)
    } else {
        match spec_mask_u32(labels[args[0]], 28) {
            Ok(target) => match spec_mask_u8(j_struct.opcode, 6) {
                Ok(op) => Ok(j_word(op, target >> 2u32)),
                Err(e) => Err(e),
            },
            Err(e) => Err(e),
        }
    }
}

/// What encoding one instruction statement yields: the catalogs are tried in
/// the fixed order R, then I, then J (no mnemonic matches two of them, see
/// `lemma_catalog_disjoint`).
pub open spec fn encode_instr_spec(
    m: Seq<char>,
    args: Seq<Seq<char>>,
    labels: Map<Seq<char>, u32>,
    addr: u32,
) -> Result<u32, AsmError> {
    match r_desc(m) {
        Ok(d) => assemble_r_spec(d, args),
        Err(_) => match i_desc(m) {
            Ok(d) => assemble_i_spec(d, args, labels, addr),
            Err(_) => match j_desc(m) {
                Ok(d) => assemble_j_spec(d, args, labels),
                Err(_) => Err(AsmError::UnknownMnemonic),
            },
        },
    }
}

/// Enforces an exact operand count.
pub fn enforce_length(arr: &Vec<String>, len: usize) -> (r: Result<u32, AsmError>)
    ensures
        r == if arr@.len() == len {
            Ok::<u32, AsmError>(0u32)
        } else {
            Err::<u32, AsmError>(AsmError::ArityMismatch)
        },
{
    if arr.len() != len {
        Err(AsmError::ArityMismatch)
    } else {
        Ok(0)
    }
}

/// Assembles an R-type instruction: resolves the operands for the
/// descriptor's form, validates every field width, and packs the word.
pub fn assemble_r(r_struct: R, r_args: &Vec<String>) -> (r: Result<u32, AsmError>)
    ensures
        r == assemble_r_spec(r_struct, r_args.deep_view()),
{
    let ghost av = r_args.deep_view();
    proof {
        assert forall|k: int| 0 <= k < r_args@.len() implies av[k] == r_args@[k]@ by {}
    }
    enforce_length(r_args, 3)?;
    match r_struct.form {
        RForm::RdRsRt => {
            let rd = assemble_reg(r_args[0].as_str())?;
            let rs = assemble_reg(r_args[1].as_str())?;
            let rt = assemble_reg(r_args[2].as_str())?;
            let rs = mask_u8(rs, 5)?;
            let rt = mask_u8(rt, 5)?;
            let rd = mask_u8(rd, 5)?;
            let shamt = mask_u8(r_struct.shamt, 5)?;
            let funct = mask_u8(r_struct.funct, 6)?;
            Ok(pack_r(rs, rt, rd, shamt, funct))
        },
        RForm::RdRtShamt => {
            let rd = assemble_reg(r_args[0].as_str())?;
            let rt = assemble_reg(r_args[1].as_str())?;
            let sh32 = base_parse(r_args[2].as_str())?;
            let shv = mask_u32(sh32, 5)?;
            proof {
                assert(1u32 << 5u32 == 32) by (bit_vector);
            }
            let shamt = shv as u8;
            let rs = mask_u8(0, 5)?;
            let rt = mask_u8(rt, 5)?;
            let rd = mask_u8(rd, 5)?;
            let shamt = mask_u8(shamt, 5)?;
            let funct = mask_u8(r_struct.funct, 6)?;
            Ok(pack_r(rs, rt, rd, shamt, funct))
        },
    }
}

/// Assembles an I-type instruction against the pass-one label table.
pub fn assemble_i(
    i_struct: I,
    i_args: &Vec<String>,
    labels: &LabelTable,
    instr_address: u32,
) -> (r: Result<u32, AsmError>)
    ensures
        r == assemble_i_spec(i_struct, i_args.deep_view(), labels@, instr_address),
{
    let ghost av = i_args.deep_view();
    proof {
        assert forall|k: int| 0 <= k < i_args@.len() implies av[k] == i_args@[k]@ by {}
    }
    match i_struct.form {
        IForm::RtImm => {
            enforce_length(i_args, 2)?;
            let rt = assemble_reg(i_args[0].as_str())?;
            let v = base_parse(i_args[1].as_str())?;
            let imm = trunc_imm(v);
            let rs = mask_u8(0, 5)?;
            let rt = mask_u8(rt, 5)?;
            let op = mask_u8(i_struct.opcode, 6)?;
            Ok(pack_i(op, rs, rt, imm))
        },
        IForm::RtImmRs => {
            // The immediate defaults to zero when left out, so the
            // zero-offset form of a load or store is legal.
            if i_args.len() == 2 {
                let rt = assemble_reg(i_args[0].as_str())?;
                let rs = assemble_reg(i_args[1].as_str())?;
                let rs = mask_u8(rs, 5)?;
                let rt = mask_u8(rt, 5)?;
                let op = mask_u8(i_struct.opcode, 6)?;
                Ok(pack_i(op, rs, rt, 0))
            } else {
                enforce_length(i_args, 3)?;
                let rt = assemble_reg(i_args[0].as_str())?;
                let v = base_parse(i_args[1].as_str())?;
                let imm = trunc_imm(v);
                let rs = assemble_reg(i_args[2].as_str())?;
                let rs = mask_u8(rs, 5)?;
                let rt = mask_u8(rt, 5)?;
                let op = mask_u8(i_struct.opcode, 6)?;
                Ok(pack_i(op, rs, rt, imm))
            }
        },
        IForm::RsRtLabel => {
            enforce_length(i_args, 3)?;
            let rs = assemble_reg(i_args[0].as_str())?;
            let rt = assemble_reg(i_args[1].as_str())?;
            let target = match labels.get(i_args[2].as_str()) {
                Some(v) => v,
                None => {
                    return Err(AsmError::UndeclaredLabel);
                },
            };
            let w = target.wrapping_sub(instr_address);
            proof {
                if instr_address <= target {
                    assert(w == vstd::prelude::sub(target, instr_address)) by (bit_vector)
                        requires
                            w == target - instr_address,
                            instr_address <= target,
                    ;
                } else {
                    assert(w == vstd::prelude::sub(target, instr_address)) by (bit_vector)
                        requires
                            w == target - instr_address + 0x100000000,
                            instr_address > target,
                    ;
                }
            }
            let imm = trunc_imm(w);
            let rs = mask_u8(rs, 5)?;
            let rt = mask_u8(rt, 5)?;
            let op = mask_u8(i_struct.opcode, 6)?;
            Ok(pack_i(op, rs, rt, imm))
        },
        IForm::RtRsImm => {
            enforce_length(i_args, 3)?;
            let rt = assemble_reg(i_args[0].as_str())?;
            let rs = assemble_reg(i_args[1].as_str())?;
            let v = base_parse(i_args[2].as_str())?;
            let imm = trunc_imm(v);
            let rs = mask_u8(rs, 5)?;
            let rt = mask_u8(rt, 5)?;
            let op = mask_u8(i_struct.opcode, 6)?;
            Ok(pack_i(op, rs, rt, imm))
        },
    }
}

/// The low sixteen bits of a parsed value, as the immediate field carries
/// them.
fn trunc_imm(v: u32) -> (r: u16)
    ensures
        r == imm16(v),
{
    proof {
        assert(v & 0xffff <= 0xffff) by (bit_vector);
    }
    (v & 0xffff) as u16
}

/// Assembles a J-type instruction: the target label's address, validated to
/// 28 bits and stored word-aligned.
pub fn assemble_j(j_struct: J, j_args: &Vec<String>, labels: &LabelTable) -> (r: Result<
    u32,
    AsmError,
>)
    ensures
        r == assemble_j_spec(j_struct, j_args.deep_view(), labels@),
{
    let ghost av = j_args.deep_view();
    proof {
        assert forall|k: int| 0 <= k < j_args@.len() implies av[k] == j_args@[k]@ by {}
    }
    enforce_length(j_args, 1)?;
    let jump_address = match labels.get(j_args[0].as_str()) {
        Some(v) => v,
        None => {
            return Err(AsmError::UndeclaredLabel);
        },
    };
    let masked = mask_u32(jump_address, 28)?;
    // Word-align the 28-bit address into the 26-bit target field.
    let target = masked >> 2u32;
    proof {
        assert(masked < (1u32 << 28u32) ==> target < (1u32 << 26u32)) by (bit_vector)
            requires
                target == masked >> 2u32,
        ;
    }
    let op = mask_u8(j_struct.opcode, 6)?;
    Ok(pack_j(op, target))
}

/// Encodes one instruction statement, trying the R, I and J catalogs in that
/// fixed order.
pub fn encode_instr(
    mnemonic: &str,
    args: &Vec<String>,
    labels: &LabelTable,
    addr: u32,
) -> (r: Result<u32, AsmError>)
    ensures
        r == encode_instr_spec(mnemonic@, args.deep_view(), labels@, addr),
{
    match r_operation(mnemonic) {
        Ok(d) => assemble_r(d, args),
        Err(_) => match i_operation(mnemonic) {
            Ok(d) => assemble_i(d, args, labels, addr),
            Err(_) => match j_operation(mnemonic) {
                Ok(d) => assemble_j(d, args, labels),
                Err(_) => Err(AsmError::UnknownMnemonic),
            },
        },
    }
}

/// One instruction statement advances the count by one, from the front.
pub proof fn lemma_instr_count_first(stmts: Seq<Statement>)
    requires
        stmts.len() > 0,
    ensures
        instr_count(stmts) == instr_count(stmts.drop_first()) + (if stmts[0] is Instruction {
            1nat
        } else {
            0nat
        }),
    decreases stmts.len(),
{
    if stmts.len() == 1 {
        assert(stmts.drop_last() =~= Seq::<Statement>::empty());
        assert(stmts.drop_first() =~= Seq::<Statement>::empty());
    } else {
        lemma_instr_count_first(stmts.drop_last());
        assert(stmts.drop_last().drop_first() =~= stmts.drop_first().drop_last());
        assert(stmts.drop_first().last() == stmts.last());
        assert(stmts.drop_last()[0] == stmts[0]);
    }
}

/// The words pass two emits, one per instruction statement in program
/// order; the first failing statement aborts the run with its error.  The
/// supported directives (`text`, `data`, `eqv`) advance nothing; any other
/// directive is unsupported.
pub open spec fn pass2_words(stmts: Seq<Statement>, labels: Map<Seq<char>, u32>, addr: u32) -> Result<
    Seq<u32>,
    AsmError,
>
    decreases stmts.len(),
{
    if stmts.len() == 0 {
        Ok(Seq::<u32>::empty())
    } else {
        match stmts[0] {
            Statement::Instruction(m, args) => match encode_instr_spec(
                m@,
                args.deep_view(),
                labels,
                addr,
            ) {
                Ok(w) => match pass2_words(stmts.drop_first(), labels, (addr + 4) as u32) {
                    Ok(ws) => Ok(seq![w] + ws),
                    Err(e) => Err(e),
                },
                Err(e) => Err(e),
            },
            Statement::Directive(name, _) => if name@ == "text"@ || name@ == "data"@ || name@
                == "eqv"@ {
                pass2_words(stmts.drop_first(), labels, addr)
            } else {
                Err(AsmError::UnsupportedDirective)
            },
            Statement::Label(_) => pass2_words(stmts.drop_first(), labels, addr),
        }
    }
}

/// Pass two emits exactly one word per instruction statement.
pub proof fn lemma_pass2_len(stmts: Seq<Statement>, labels: Map<Seq<char>, u32>, addr: u32)
    ensures
        pass2_words(stmts, labels, addr) matches Ok(ws) ==> ws.len() == instr_count(stmts),
    decreases stmts.len(),
{
    if stmts.len() > 0 {
        lemma_instr_count_first(stmts);
        match stmts[0] {
            Statement::Instruction(_, _) => {
                lemma_pass2_len(stmts.drop_first(), labels, (addr + 4) as u32);
            },
            _ => {
                lemma_pass2_len(stmts.drop_first(), labels, addr);
            },
        }
    }
}

/// The reconstructed text of an instruction: the mnemonic, then each
/// operand preceded by one space.
pub open spec fn render_instr(m: Seq<char>, args: Seq<Seq<char>>) -> Seq<char>
    decreases args.len(),
{
    if args.len() == 0 {
        m
    } else {
        render_instr(m, args.drop_last()) + seq![' '] + args.last()
    }
}

/// The line records pass two leaves behind: the address and reconstructed
/// text of each instruction, in program order.
pub open spec fn pass2_lines(stmts: Seq<Statement>, addr: u32) -> Seq<(u32, Seq<char>)>
    decreases stmts.len(),
{
    if stmts.len() == 0 {
        Seq::<(u32, Seq<char>)>::empty()
    } else {
        match stmts[0] {
            Statement::Instruction(m, args) => seq![(addr, render_instr(m@, args.deep_view()))]
                + pass2_lines(stmts.drop_first(), (addr + 4) as u32),
            _ => pass2_lines(stmts.drop_first(), addr),
        }
    }
}

/// The emitted byte stream: each word as its four little-endian bytes, in
/// program order.
pub open spec fn flat_le_bytes(words: Seq<u32>) -> Seq<u8>
    decreases words.len(),
{
    if words.len() == 0 {
        Seq::<u8>::empty()
    } else {
        flat_le_bytes(words.drop_last()) + spec_u32_to_le_bytes(words.last())
    }
}

/// End to end: pass one's label table feeds pass two, both starting at the
/// text-segment base.
pub open spec fn assemble_spec(stmts: Seq<Statement>) -> Result<Seq<u32>, AsmError> {
    pass2_words(stmts, pass1_map(stmts, TEXT_ADDRESS_BASE), TEXT_ADDRESS_BASE)
}

/// The pairs (address, text) that a line record sequence carries.
pub open spec fn line_views(recs: Seq<LineRecord>) -> Seq<(u32, Seq<char>)> {
    recs.map_values(|r: LineRecord| (r.instr_addr, r.line_contents@))
}

/// The exec line records carry exactly the spec pairs, with line number
/// zero and an empty pseudo-op annotation.
pub open spec fn line_records_match(recs: Seq<LineRecord>, pairs: Seq<(u32, Seq<char>)>) -> bool {
    &&& recs.len() == pairs.len()
    &&& forall|k: int|
        0 <= k < recs.len() ==> {
            &&& (#[trigger] recs[k]).instr_addr == pairs[k].0
            &&& recs[k].line_contents@ == pairs[k].1
            &&& recs[k].line_number == 0
            &&& recs[k].pseudo_op@ == Seq::<char>::empty()
        }
}

/// Builds the reconstructed text of an instruction for its line record.
#[verifier::loop_isolation(false)]
fn render_line(mnemonic: &String, args: &Vec<String>) -> (s: String)
    ensures
        s@ == render_instr(mnemonic@, args.deep_view()),
{
    let ghost av = args.deep_view();
    proof {
        assert forall|k: int| 0 <= k < args@.len() implies av[k] == args@[k]@ by {}
    }
    let mut out = mnemonic.clone();
    let mut j: usize = 0;
    while j < args.len()
        invariant
            j <= args@.len(),
            out@ == render_instr(mnemonic@, av.take(j as int)),
        decreases args@.len() - j,
    {
        out.append(" ");
        out.append(args[j].as_str());
        proof {
            reveal_strlit(" ");
            assert(" "@ =~= seq![' ']);
            assert(av.take(j + 1).drop_last() =~= av.take(j as int));
            assert(av.take(j + 1).last() == av[j as int]);
        }
        j += 1;
    }
    proof {
        assert(av.take(args@.len() as int) =~= av);
    }
    out
}

/// Runs both passes over the statement sequence: pass one records every
/// label, pass two encodes every instruction and emits the object bytes,
/// four per instruction in little-endian program order, together with the
/// line records.
#[verifier::loop_isolation(false)]
pub fn assemble_program(stmts: &Vec<Statement>) -> (r: Result<(Vec<u8>, Vec<LineRecord>), AsmError>)
    requires
        TEXT_ADDRESS_BASE + 4 * instr_count(stmts@) <= u32::MAX,
    ensures
        (r is Ok) == (assemble_spec(stmts@) is Ok),
        r matches Err(e) ==> assemble_spec(stmts@) == Err::<Seq<u32>, AsmError>(e),
        r matches Ok(out) ==> assemble_spec(stmts@) matches Ok(words) && out.0@ == flat_le_bytes(
            words,
        ) && out.0@.len() == 4 * instr_count(stmts@) && line_records_match(
            out.1@,
            pass2_lines(stmts@, TEXT_ADDRESS_BASE),
        ),
{
    let labels = build_label_table(stmts);
    let ghost lmap = labels@;
    let mut bytes: Vec<u8> = Vec::new();
    let mut lines: Vec<LineRecord> = Vec::new();
    let ghost mut words = Seq::<u32>::empty();
    let mut addr: u32 = TEXT_ADDRESS_BASE;
    let mut i: usize = 0;
    proof {
        assert(stmts@.skip(0) =~= stmts@);
        assert(stmts@.take(0) =~= Seq::<Statement>::empty());
        assert(line_views(lines@) =~= Seq::<(u32, Seq<char>)>::empty());
        if let Ok(ws) = pass2_words(stmts@, lmap, TEXT_ADDRESS_BASE) {
            assert(words + ws =~= ws);
        }
        assert(line_views(lines@) + pass2_lines(stmts@, TEXT_ADDRESS_BASE) =~= pass2_lines(
            stmts@,
            TEXT_ADDRESS_BASE,
        ));
    }
    while i < stmts.len()
        invariant
            i <= stmts@.len(),
            labels@ == lmap,
            addr == TEXT_ADDRESS_BASE + 4 * instr_count(stmts@.take(i as int)),
            words.len() == instr_count(stmts@.take(i as int)),
            bytes@ == flat_le_bytes(words),
            bytes@.len() == 4 * words.len(),
            pass2_words(stmts@, lmap, TEXT_ADDRESS_BASE) == (match pass2_words(
                stmts@.skip(i as int),
                lmap,
                addr,
            ) {
                Ok(rest) => Ok::<Seq<u32>, AsmError>(words + rest),
                Err(e) => Err::<Seq<u32>, AsmError>(e),
            }),
            pass2_lines(stmts@, TEXT_ADDRESS_BASE) == line_views(lines@) + pass2_lines(
                stmts@.skip(i as int),
                addr,
            ),
            forall|k: int|
                0 <= k < lines@.len() ==> (#[trigger] lines@[k]).line_number == 0
                    && lines@[k].pseudo_op@ == Seq::<char>::empty(),
        decreases stmts@.len() - i,
    {
        proof {
            assert(stmts@.skip(i as int)[0] == stmts@[i as int]);
            assert(stmts@.skip(i as int).drop_first() =~= stmts@.skip(i + 1));
            assert(stmts@.take(i + 1).drop_last() =~= stmts@.take(i as int));
            assert(stmts@.take(i + 1).last() == stmts@[i as int]);
            lemma_instr_count_prefix(stmts@, i + 1);
        }
        match &stmts[i] {
            Statement::Instruction(m, args) => {
                let w = match encode_instr(m.as_str(), args, &labels, addr) {
                    Ok(w) => w,
                    Err(e) => {
                        return Err(e);
                    },
                };
                let mut wb = emit_word(w);
                bytes.append(&mut wb);
                let text = render_line(m, args);
                lines.push(
                    LineRecord {
                        instr_addr: addr,
                        line_number: 0,
                        line_contents: text,
                        pseudo_op: String::new(),
                    },
                );
                proof {
                    let prev = words;
                    words = words.push(w);
                    assert(words.drop_last() =~= prev);
                    assert(words.last() == w);
                    let rest_r = pass2_words(stmts@.skip(i + 1), lmap, (addr + 4) as u32);
                    if let Ok(rest) = rest_r {
                        assert(prev + (seq![w] + rest) =~= words + rest);
                    }
                    let lv = line_views(lines@);
                    assert(lv =~= line_views(lines@.drop_last()).push(
                        (addr, render_instr(m@, args.deep_view())),
                    ));
                    assert(line_views(lines@.drop_last()) + (seq![
                        (addr, render_instr(m@, args.deep_view())),
                    ] + pass2_lines(stmts@.skip(i + 1), (addr + 4) as u32)) =~= lv + pass2_lines(
                        stmts@.skip(i + 1),
                        (addr + 4) as u32,
                    ));
                }
                addr = addr + 4;
            },
            Statement::Directive(name, _) => {
                if str_eq(name.as_str(), "text") || str_eq(name.as_str(), "data") || str_eq(
                    name.as_str(),
                    "eqv",
                ) {
                } else {
                    return Err(AsmError::UnsupportedDirective);
                }
            },
            Statement::Label(_) => {},
        }
        i += 1;
    }
    proof {
        assert(stmts@.skip(stmts@.len() as int) =~= Seq::<Statement>::empty());
        assert(stmts@.take(stmts@.len() as int) =~= stmts@);
        assert(words + Seq::<u32>::empty() =~= words);
        assert(line_views(lines@) + Seq::<(u32, Seq<char>)>::empty() =~= line_views(lines@));
    }
    Ok((bytes, lines))
}

} // verus!
