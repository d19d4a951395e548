//! Register naming and numeric literal parsing.

use nma::errors::AsmError;
use nma::numparse::base_parse;
use nma::regs::assemble_reg;

#[test]
fn named_aliases_resolve() {
    assert_eq!(assemble_reg("$zero"), Ok(0));
    assert_eq!(assemble_reg("$at"), Ok(1));
    assert_eq!(assemble_reg("$gp"), Ok(28));
    assert_eq!(assemble_reg("$sp"), Ok(29));
    assert_eq!(assemble_reg("$fp"), Ok(30));
    assert_eq!(assemble_reg("$ra"), Ok(31));
}

#[test]
fn families_resolve_with_their_base_offsets() {
    assert_eq!(assemble_reg("$v0"), Ok(2));
    assert_eq!(assemble_reg("$v1"), Ok(3));
    assert_eq!(assemble_reg("$a0"), Ok(4));
    assert_eq!(assemble_reg("$a3"), Ok(7));
    assert_eq!(assemble_reg("$s0"), Ok(16));
    assert_eq!(assemble_reg("$s7"), Ok(23));
}

#[test]
fn t_family_has_the_split_numbering_range() {
    assert_eq!(assemble_reg("$t0"), Ok(8));
    assert_eq!(assemble_reg("$t7"), Ok(15));
    assert_eq!(assemble_reg("$t8"), Ok(24));
    assert_eq!(assemble_reg("$t9"), Ok(25));
}

#[test]
fn bare_decimal_literals_resolve() {
    assert_eq!(assemble_reg("0"), Ok(0));
    assert_eq!(assemble_reg("26"), Ok(26));
    assert_eq!(assemble_reg("31"), Ok(31));
}

#[test]
fn out_of_range_indices_are_invalid_registers() {
    assert_eq!(assemble_reg("32"), Err(AsmError::InvalidRegister));
    assert_eq!(assemble_reg("99"), Err(AsmError::InvalidRegister));
    assert_eq!(assemble_reg("4294967296"), Err(AsmError::InvalidRegister));
}

#[test]
fn unmatched_token_shapes_are_malformed() {
    assert_eq!(assemble_reg(""), Err(AsmError::MalformedMnemonic));
    assert_eq!(assemble_reg("$x1"), Err(AsmError::MalformedMnemonic));
    assert_eq!(assemble_reg("$t"), Err(AsmError::MalformedMnemonic));
    assert_eq!(assemble_reg("$ta"), Err(AsmError::MalformedMnemonic));
    assert_eq!(assemble_reg("$t10"), Err(AsmError::MalformedMnemonic));
    assert_eq!(assemble_reg("abc"), Err(AsmError::MalformedMnemonic));
}

#[test]
fn every_register_index_is_reachable() {
    // The image of register naming is exactly 0..=31: each index has a
    // resolving token, and (see the out-of-range test) nothing resolves
    // beyond 31.
    for i in 0..=31u8 {
        let token = format!("{}", i);
        assert_eq!(assemble_reg(&token), Ok(i));
    }
}

#[test]
fn base_parse_reads_each_radix_from_its_prefix() {
    assert_eq!(base_parse("42"), Ok(42));
    assert_eq!(base_parse("0"), Ok(0));
    assert_eq!(base_parse("0x1234"), Ok(0x1234));
    assert_eq!(base_parse("0xFFFFFFFF"), Ok(u32::MAX));
    assert_eq!(base_parse("0b101"), Ok(5));
    assert_eq!(base_parse("017"), Ok(15));
}

#[test]
fn base_parse_rejects_malformed_literals() {
    assert_eq!(base_parse(""), Err(AsmError::MalformedImmediate));
    assert_eq!(base_parse("0x"), Err(AsmError::MalformedImmediate));
    assert_eq!(base_parse("12a"), Err(AsmError::MalformedImmediate));
    assert_eq!(base_parse("0b2"), Err(AsmError::MalformedImmediate));
    assert_eq!(base_parse("09"), Err(AsmError::MalformedImmediate));
    assert_eq!(base_parse("0x100000000"), Err(AsmError::MalformedImmediate));
    assert_eq!(base_parse("-1"), Err(AsmError::MalformedImmediate));
}
