//! Instruction catalog: the static tables mapping each mnemonic to its
//! format (R, I or J), its fixed fields and its argument form.
//!
//! Pass two of the assembler tries the R table, then the I table, then the J
//! table, first match wins; `lemma_catalog_disjoint` shows no mnemonic ever
//! matches two tables, so the fixed order loses nothing.

use vstd::prelude::*;
use crate::errors::AsmError;
use crate::strutil::str_eq;

verus! {

/// The argument form of an R-type instruction: which operands the statement
/// supplies, in which order.
#[derive(Clone, Copy, Debug, PartialEq, Eq, Structural)]
pub enum RForm {
    /// `mnemonic rd, rs, rt`
    RdRsRt,
    /// `mnemonic rd, rt, shamt`
    RdRtShamt,
}

/// The argument form of an I-type instruction.
#[derive(Clone, Copy, Debug, PartialEq, Eq, Structural)]
pub enum IForm {
    /// `mnemonic rt, imm`
    RtImm,
    /// `mnemonic rt, imm(rs)` — loads and stores; the immediate may be left
    /// out and defaults to zero.
    RtImmRs,
    /// `mnemonic rt, rs, imm`
    RtRsImm,
    /// `mnemonic rs, rt, label` — branches.
    RsRtLabel,
}

/// The variable components of an R-type instruction.
#[derive(Clone, Copy, Debug, PartialEq, Eq, Structural)]
pub struct R {
    pub shamt: u8,
    pub funct: u8,
    pub form: RForm,
}

/// The variable components of an I-type instruction.
#[derive(Clone, Copy, Debug, PartialEq, Eq, Structural)]
pub struct I {
    pub opcode: u8,
    pub form: IForm,
}

/// The variable component of a J-type instruction.
#[derive(Clone, Copy, Debug, PartialEq, Eq, Structural)]
pub struct J {
    pub opcode: u8,
}

/// The R table.
pub open spec fn r_desc(m: Seq<char>) -> Result<R, AsmError> {
    if m == "add"@ {
        Ok(R { shamt: 0, funct: 0x20, form: RForm::RdRsRt })
    } else if m == "sub"@ {
        Ok(R { shamt: 0, funct: 0x22, form: RForm::RdRsRt })
    } else if m == "sll"@ {
        Ok(R { shamt: 0, funct: 0x00, form: RForm::RdRtShamt })
    } else if m == "srl"@ {
        Ok(R { shamt: 0, funct: 0x02, form: RForm::RdRtShamt })
    } else if m == "xor"@ {
        Ok(R { shamt: 0, funct: 0x26, form: RForm::RdRsRt })
    } else {
        Err(AsmError::UnknownMnemonic)
    }
}

/// The I table.
pub open spec fn i_desc(m: Seq<char>) -> Result<I, AsmError> {
    if m == "ori"@ {
        Ok(I { opcode: 0xd, form: IForm::RtRsImm })
    } else if m == "lb"@ {
        Ok(I { opcode: 0x20, form: IForm::RtImmRs })
    } else if m == "lbu"@ {
        Ok(I { opcode: 0x24, form: IForm::RtImmRs })
    } else if m == "lh"@ {
        Ok(I { opcode: 0x21, form: IForm::RtImmRs })
    } else if m == "lhu"@ {
        Ok(I { opcode: 0x25, form: IForm::RtImmRs })
    } else if m == "lw"@ {
        Ok(I { opcode: 0x23, form: IForm::RtImmRs })
    } else if m == "ll"@ {
        Ok(I { opcode: 0x30, form: IForm::RtImmRs })
    } else if m == "lui"@ {
        Ok(I { opcode: 0xf, form: IForm::RtImm })
    } else if m == "sb"@ {
        Ok(I { opcode: 0x28, form: IForm::RtImmRs })
    } else if m == "sh"@ {
        Ok(I { opcode: 0x29, form: IForm::RtImmRs })
    } else if m == "sw"@ {
        Ok(I { opcode: 0x2b, form: IForm::RtImmRs })
    } else if m == "sc"@ {
        Ok(I { opcode: 0x38, form: IForm::RtImmRs })
    } else if m == "beq"@ {
        Ok(I { opcode: 0x4, form: IForm::RsRtLabel })
    } else if m == "bne"@ {
        Ok(I { opcode: 0x5, form: IForm::RsRtLabel })
    } else {
        Err(AsmError::UnknownMnemonic)
    }
}

/// The J table.
pub open spec fn j_desc(m: Seq<char>) -> Result<J, AsmError> {
    if m == "j"@ {
        Ok(J { opcode: 0x2 })
    } else if m == "jal"@ {
        Ok(J { opcode: 0x3 })
    } else {
        Err(AsmError::UnknownMnemonic)
    }
}

/// Looks up an R-type mnemonic.
pub fn r_operation(mnemonic: &str) -> (r: Result<R, AsmError>)
    ensures
        r == r_desc(mnemonic@),
{
    if str_eq(mnemonic, "add") {
        Ok(R { shamt: 0, funct: 0x20, form: RForm::RdRsRt })
    } else if str_eq(mnemonic, "sub") {
        Ok(R { shamt: 0, funct: 0x22, form: RForm::RdRsRt })
    } else if str_eq(mnemonic, "sll") {
        Ok(R { shamt: 0, funct: 0x00, form: RForm::RdRtShamt })
    } else if str_eq(mnemonic, "srl") {
        Ok(R { shamt: 0, funct: 0x02, form: RForm::RdRtShamt })
    } else if str_eq(mnemonic, "xor") {
        Ok(R { shamt: 0, funct: 0x26, form: RForm::RdRsRt })
    } else {
        Err(AsmError::UnknownMnemonic)
    }
}

/// Looks up an I-type mnemonic.
pub fn i_operation(mnemonic: &str) -> (r: Result<I, AsmError>)
    ensures
        r == i_desc(mnemonic@),
{
    if str_eq(mnemonic, "ori") {
        Ok(I { opcode: 0xd, form: IForm::RtRsImm })
    } else if str_eq(mnemonic, "lb") {
        Ok(I { opcode: 0x20, form: IForm::RtImmRs })
    } else if str_eq(mnemonic, "lbu") {
        Ok(I { opcode: 0x24, form: IForm::RtImmRs })
    } else if str_eq(mnemonic, "lh") {
        Ok(I { opcode: 0x21, form: IForm::RtImmRs })
    } else if str_eq(mnemonic, "lhu") {
        Ok(I { opcode: 0x25, form: IForm::RtImmRs })
    } else if str_eq(mnemonic, "lw") {
        Ok(I { opcode: 0x23, form: IForm::RtImmRs })
    } else if str_eq(mnemonic, "ll") {
        Ok(I { opcode: 0x30, form: IForm::RtImmRs })
    } else if str_eq(mnemonic, "lui") {
        Ok(I { opcode: 0xf, form: IForm::RtImm })
    } else if str_eq(mnemonic, "sb") {
        Ok(I { opcode: 0x28, form: IForm::RtImmRs })
    } else if str_eq(mnemonic, "sh") {
        Ok(I { opcode: 0x29, form: IForm::RtImmRs })
    } else if str_eq(mnemonic, "sw") {
        Ok(I { opcode: 0x2b, form: IForm::RtImmRs })
    } else if str_eq(mnemonic, "sc") {
        Ok(I { opcode: 0x38, form: IForm::RtImmRs })
    } else if str_eq(mnemonic, "beq") {
        Ok(I { opcode: 0x4, form: IForm::RsRtLabel })
    } else if str_eq(mnemonic, "bne") {
        Ok(I { opcode: 0x5, form: IForm::RsRtLabel })
    } else {
        Err(AsmError::UnknownMnemonic)
    }
}

/// Looks up a J-type mnemonic.
pub fn j_operation(mnemonic: &str) -> (r: Result<J, AsmError>)
    ensures
        r == j_desc(mnemonic@),
{
    if str_eq(mnemonic, "j") {
        Ok(J { opcode: 0x2 })
    } else if str_eq(mnemonic, "jal") {
        Ok(J { opcode: 0x3 })
    } else {
        Err(AsmError::UnknownMnemonic)
    }
}

/// No mnemonic matches more than one of the three tables, so the fixed
/// lookup order R, then I, then J never hides an entry.
#[verifier::rlimit(100)]
pub proof fn lemma_catalog_disjoint(m: Seq<char>)
    ensures
        r_desc(m) is Ok ==> i_desc(m) is Err && j_desc(m) is Err,
        i_desc(m) is Ok ==> r_desc(m) is Err && j_desc(m) is Err,
        j_desc(m) is Ok ==> r_desc(m) is Err && i_desc(m) is Err,
{
    reveal_strlit("add");
    reveal_strlit("sub");
    reveal_strlit("sll");
    reveal_strlit("srl");
    reveal_strlit("xor");
    reveal_strlit("ori");
    reveal_strlit("lb");
    reveal_strlit("lbu");
    reveal_strlit("lh");
    reveal_strlit("lhu");
    reveal_strlit("lw");
    reveal_strlit("ll");
    reveal_strlit("lui");
    reveal_strlit("sb");
    reveal_strlit("sh");
    reveal_strlit("sw");
    reveal_strlit("sc");
    reveal_strlit("beq");
    reveal_strlit("bne");
    reveal_strlit("j");
    reveal_strlit("jal");
    assert("add"@.len() == 3);
    assert("add"@[0] == 'a');
    assert("sub"@.len() == 3);
    assert("sub"@[0] == 's');
    assert("sll"@.len() == 3);
    assert("sll"@[0] == 's');
    assert("srl"@.len() == 3);
    assert("srl"@[0] == 's');
    assert("xor"@.len() == 3);
    assert("xor"@[0] == 'x');
    assert("ori"@.len() == 3);
    assert("ori"@[0] == 'o');
    assert("lb"@.len() == 2);
    assert("lb"@[0] == 'l');
    assert("lbu"@.len() == 3);
    assert("lbu"@[0] == 'l');
    assert("lh"@.len() == 2);
    assert("lh"@[0] == 'l');
    assert("lhu"@.len() == 3);
    assert("lhu"@[0] == 'l');
    assert("lw"@.len() == 2);
    assert("lw"@[0] == 'l');
    assert("ll"@.len() == 2);
    assert("ll"@[0] == 'l');
    assert("lui"@.len() == 3);
    assert("lui"@[0] == 'l');
    assert("sb"@.len() == 2);
    assert("sb"@[0] == 's');
    assert("sh"@.len() == 2);
    assert("sh"@[0] == 's');
    assert("sw"@.len() == 2);
    assert("sw"@[0] == 's');
    assert("sc"@.len() == 2);
    assert("sc"@[0] == 's');
    assert("beq"@.len() == 3);
    assert("beq"@[0] == 'b');
    assert("bne"@.len() == 3);
    assert("bne"@[0] == 'b');
    assert("j"@.len() == 1);
    assert("j"@[0] == 'j');
    assert("jal"@.len() == 3);
    assert("jal"@[0] == 'j');
}

} // verus!
