//! Register naming: resolves symbolic register tokens and bare decimal
//! literals to 5-bit register indices.
//!
//! Named aliases resolve directly (`$zero`, `$at`, `$gp`, `$sp`, `$fp`,
//! `$ra`); the numbered families `$v`, `$a`, `$t` and `$s` resolve through a
//! per-family base offset plus the digit, with the real MIPS split in the
//! `$t` family (`t0..t7` map to 8..15, `t8..t9` to 24..25); a bare decimal
//! literal names its index directly.  A resolved index past 31 is an invalid
//! register; a token matching no rule is a malformed mnemonic.

use vstd::prelude::*;
use crate::errors::AsmError;
use crate::numparse::all_digits;
use crate::numparse::digit_in_radix;
use crate::numparse::digit_of;
use crate::numparse::radix_val;
use crate::strutil::str_eq;

verus! {

/// The family base mapping: the register index for family letter `f` and
/// digit `d`, or nothing for an unknown family letter.
pub open spec fn family_index(f: char, d: u32) -> Option<u32>
    recommends
        d <= 9,
{
    if f == 'v' {
        Some((d + 2) as u32)
    } else if f == 'a' {
        Some((d + 4) as u32)
    } else if f == 't' {
        if d <= 7 {
            Some((d + 8) as u32)
        } else {
            Some((d + 16) as u32)
        }
    } else if f == 's' {
        Some((d + 16) as u32)
    } else {
        None
    }
}

/// What register resolution returns for a token: an alias value, a family
/// index, the value of a bare decimal literal, or the error that the token's
/// shape earns.
pub open spec fn reg_spec(s: Seq<char>) -> Result<u8, AsmError> {
    if s == "$zero"@ {
        Ok(0u8)
    } else if s == "$at"@ {
        Ok(1u8)
    } else if s == "$gp"@ {
        Ok(28u8)
    } else if s == "$sp"@ {
        Ok(29u8)
    } else if s == "$fp"@ {
        Ok(30u8)
    } else if s == "$ra"@ {
        Ok(31u8)
    } else if s.len() == 3 && s[0] == '$' {
        match digit_in_radix(s[2], 10) {
            Some(d) => match family_index(s[1], d) {
                Some(idx) => if idx <= 31 {
                    Ok(idx as u8)
                } else {
                    Err(AsmError::InvalidRegister)
                },
                None => Err(AsmError::MalformedMnemonic),
            },
            None => Err(AsmError::MalformedMnemonic),
        }
    } else if s.len() > 0 && all_digits(s, 10) {
        if radix_val(s, 10) <= 31 {
            Ok(radix_val(s, 10) as u8)
        } else {
            Err(AsmError::InvalidRegister)
        }
    } else {
        Err(AsmError::MalformedMnemonic)
    }
}

/// Reads the digit of a three-character family token.
fn reg_number(mnemonic: &str) -> (r: Result<u8, AsmError>)
    ensures
        match r {
            Ok(d) => mnemonic@.len() == 3 && digit_in_radix(mnemonic@[2], 10) == Some(d as u32)
                && d <= 9,
            Err(e) => e == AsmError::MalformedMnemonic && (mnemonic@.len() != 3 || digit_in_radix(
                mnemonic@[2],
                10,
            ) is None),
        },
{
    if mnemonic.unicode_len() != 3 {
        return Err(AsmError::MalformedMnemonic);
    }
    match digit_of(mnemonic.get_char(2), 10) {
        Some(d) => {
            assert(d <= 9);
            Ok(d as u8)
        },
        None => Err(AsmError::MalformedMnemonic),
    }
}

/// Resolves a register token or bare decimal literal to its register index,
/// exactly as `reg_spec` states.
#[verifier::loop_isolation(false)]
pub fn assemble_reg(mnemonic: &str) -> (r: Result<u8, AsmError>)
    ensures
        r == reg_spec(mnemonic@),
{
    if str_eq(mnemonic, "$zero") {
        return Ok(0);
    }
    if str_eq(mnemonic, "$at") {
        return Ok(1);
    }
    if str_eq(mnemonic, "$gp") {
        return Ok(28);
    }
    if str_eq(mnemonic, "$sp") {
        return Ok(29);
    }
    if str_eq(mnemonic, "$fp") {
        return Ok(30);
    }
    if str_eq(mnemonic, "$ra") {
        return Ok(31);
    }
    let n = mnemonic.unicode_len();
    if n == 3 && mnemonic.get_char(0) == '$' {
        let d = match reg_number(mnemonic) {
            Ok(d) => d,
            Err(e) => {
                return Err(e);
            },
        };
        let f = mnemonic.get_char(1);
        let idx: u8 = if f == 'v' {
            d + 2
        } else if f == 'a' {
            d + 4
        } else if f == 't' {
            if d <= 7 {
                d + 8
            } else {
                d + 16
            }
        } else if f == 's' {
            d + 16
        } else {
            return Err(AsmError::MalformedMnemonic);
        };
        if idx <= 31 {
            Ok(idx)
        } else {
            Err(AsmError::InvalidRegister)
        }
    } else {
        // A bare decimal literal; accumulate with saturation just past the
        // largest register index, so oversized values fail without overflow.
        if n == 0 {
            return Err(AsmError::MalformedMnemonic);
        }
        let mut acc: u32 = 0;
        let mut i: usize = 0;
        while i < n
            invariant
                i <= n,
                n == mnemonic@.len(),
                all_digits(mnemonic@.take(i as int), 10),
                acc == if radix_val(mnemonic@.take(i as int), 10) <= 31 {
                    radix_val(mnemonic@.take(i as int), 10)
                } else {
                    32nat
                },
            decreases n - i,
        {
            let c = mnemonic.get_char(i);
            let d = match digit_of(c, 10) {
                Some(d) => d,
                None => {
                    proof {
                        assert(digit_in_radix(mnemonic@[i as int], 10) is None);
                        assert(!all_digits(mnemonic@, 10));
                    }
                    return Err(AsmError::MalformedMnemonic);
                },
            };
            proof {
                assert(mnemonic@.take(i + 1).drop_last() =~= mnemonic@.take(i as int));
                let v = radix_val(mnemonic@.take(i as int), 10);
                if v > 31 {
                    assert(v * 10 >= 320) by (nonlinear_arith)
                        requires
                            v >= 32,
                    ;
                }
            }
            acc = if acc > 31 {
                32
            } else if acc * 10 + d > 31 {
                32
            } else {
                acc * 10 + d
            };
            i += 1;
        }
        proof {
            assert(mnemonic@.take(n as int) =~= mnemonic@);
        }
        if acc <= 31 {
            Ok(acc as u8)
        } else {
            Err(AsmError::InvalidRegister)
        }
    }
}

/// Every successful resolution lands inside the register file: the image of
/// register naming lies in `0..=31`.
pub proof fn lemma_reg_image(s: Seq<char>)
    ensures
        reg_spec(s) matches Ok(r) ==> r <= 31,
{
}

/// A bare decimal token that is not `$`-prefixed resolves to its value.
proof fn lemma_dec_token_resolves(s: Seq<char>, v: u8)
    requires
        v <= 31,
        s.len() > 0,
        s[0] != '$',
        all_digits(s, 10),
        radix_val(s, 10) == v as nat,
    ensures
        reg_spec(s) == Ok::<u8, AsmError>(v),
{
    reveal_strlit("$zero");
    reveal_strlit("$at");
    reveal_strlit("$gp");
    reveal_strlit("$sp");
    reveal_strlit("$fp");
    reveal_strlit("$ra");
    assert(s != "$zero"@);
    assert(s != "$at"@);
    assert(s != "$gp"@);
    assert(s != "$sp"@);
    assert(s != "$fp"@);
    assert(s != "$ra"@);
}

/// The image of register naming is all of `0..=31`: every index is reached,
/// here witnessed by its bare decimal literal.
#[verifier::rlimit(100)]
pub proof fn lemma_reg_image_onto(r: u8)
    requires
        r <= 31,
    ensures
        exists|s: Seq<char>| reg_spec(s) == Ok::<u8, AsmError>(r),
{
    if r == 0 {
        reveal_strlit("0");
        crate::numparse::lemma_radix_val_one("0"@, 10);
        lemma_dec_token_resolves("0"@, 0);
        assert(reg_spec("0"@) == Ok::<u8, AsmError>(0u8));
    } else if r == 1 {
        reveal_strlit("1");
        crate::numparse::lemma_radix_val_one("1"@, 10);
        lemma_dec_token_resolves("1"@, 1);
        assert(reg_spec("1"@) == Ok::<u8, AsmError>(1u8));
    } else if r == 2 {
        reveal_strlit("2");
        crate::numparse::lemma_radix_val_one("2"@, 10);
        lemma_dec_token_resolves("2"@, 2);
        assert(reg_spec("2"@) == Ok::<u8, AsmError>(2u8));
    } else if r == 3 {
        reveal_strlit("3");
        crate::numparse::lemma_radix_val_one("3"@, 10);
        lemma_dec_token_resolves("3"@, 3);
        assert(reg_spec("3"@) == Ok::<u8, AsmError>(3u8));
    } else if r == 4 {
        reveal_strlit("4");
        crate::numparse::lemma_radix_val_one("4"@, 10);
        lemma_dec_token_resolves("4"@, 4);
        assert(reg_spec("4"@) == Ok::<u8, AsmError>(4u8));
    } else if r == 5 {
        reveal_strlit("5");
        crate::numparse::lemma_radix_val_one("5"@, 10);
        lemma_dec_token_resolves("5"@, 5);
        assert(reg_spec("5"@) == Ok::<u8, AsmError>(5u8));
    } else if r == 6 {
        reveal_strlit("6");
        crate::numparse::lemma_radix_val_one("6"@, 10);
        lemma_dec_token_resolves("6"@, 6);
        assert(reg_spec("6"@) == Ok::<u8, AsmError>(6u8));
    } else if r == 7 {
        reveal_strlit("7");
        crate::numparse::lemma_radix_val_one("7"@, 10);
        lemma_dec_token_resolves("7"@, 7);
        assert(reg_spec("7"@) == Ok::<u8, AsmError>(7u8));
    } else if r == 8 {
        reveal_strlit("8");
        crate::numparse::lemma_radix_val_one("8"@, 10);
        lemma_dec_token_resolves("8"@, 8);
        assert(reg_spec("8"@) == Ok::<u8, AsmError>(8u8));
    } else if r == 9 {
        reveal_strlit("9");
        crate::numparse::lemma_radix_val_one("9"@, 10);
        lemma_dec_token_resolves("9"@, 9);
        assert(reg_spec("9"@) == Ok::<u8, AsmError>(9u8));
    } else if r == 10 {
        reveal_strlit("10");
        crate::numparse::lemma_radix_val_two("10"@, 10);
        lemma_dec_token_resolves("10"@, 10);
        assert(reg_spec("10"@) == Ok::<u8, AsmError>(10u8));
    } else if r == 11 {
        reveal_strlit("11");
        crate::numparse::lemma_radix_val_two("11"@, 10);
        lemma_dec_token_resolves("11"@, 11);
        assert(reg_spec("11"@) == Ok::<u8, AsmError>(11u8));
    } else if r == 12 {
        reveal_strlit("12");
        crate::numparse::lemma_radix_val_two("12"@, 10);
        lemma_dec_token_resolves("12"@, 12);
        assert(reg_spec("12"@) == Ok::<u8, AsmError>(12u8));
    } else if r == 13 {
        reveal_strlit("13");
        crate::numparse::lemma_radix_val_two("13"@, 10);
        lemma_dec_token_resolves("13"@, 13);
        assert(reg_spec("13"@) == Ok::<u8, AsmError>(13u8));
    } else if r == 14 {
        reveal_strlit("14");
        crate::numparse::lemma_radix_val_two("14"@, 10);
        lemma_dec_token_resolves("14"@, 14);
        assert(reg_spec("14"@) == Ok::<u8, AsmError>(14u8));
    } else if r == 15 {
        reveal_strlit("15");
        crate::numparse::lemma_radix_val_two("15"@, 10);
        lemma_dec_token_resolves("15"@, 15);
        assert(reg_spec("15"@) == Ok::<u8, AsmError>(15u8));
    } else if r == 16 {
        reveal_strlit("16");
        crate::numparse::lemma_radix_val_two("16"@, 10);
        lemma_dec_token_resolves("16"@, 16);
        assert(reg_spec("16"@) == Ok::<u8, AsmError>(16u8));
    } else if r == 17 {
        reveal_strlit("17");
        crate::numparse::lemma_radix_val_two("17"@, 10);
        lemma_dec_token_resolves("17"@, 17);
        assert(reg_spec("17"@) == Ok::<u8, AsmError>(17u8));
    } else if r == 18 {
        reveal_strlit("18");
        crate::numparse::lemma_radix_val_two("18"@, 10);
        lemma_dec_token_resolves("18"@, 18);
        assert(reg_spec("18"@) == Ok::<u8, AsmError>(18u8));
    } else if r == 19 {
        reveal_strlit("19");
        crate::numparse::lemma_radix_val_two("19"@, 10);
        lemma_dec_token_resolves("19"@, 19);
        assert(reg_spec("19"@) == Ok::<u8, AsmError>(19u8));
    } else if r == 20 {
        reveal_strlit("20");
        crate::numparse::lemma_radix_val_two("20"@, 10);
        lemma_dec_token_resolves("20"@, 20);
        assert(reg_spec("20"@) == Ok::<u8, AsmError>(20u8));
    } else if r == 21 {
        reveal_strlit("21");
        crate::numparse::lemma_radix_val_two("21"@, 10);
        lemma_dec_token_resolves("21"@, 21);
        assert(reg_spec("21"@) == Ok::<u8, AsmError>(21u8));
    } else if r == 22 {
        reveal_strlit("22");
        crate::numparse::lemma_radix_val_two("22"@, 10);
        lemma_dec_token_resolves("22"@, 22);
        assert(reg_spec("22"@) == Ok::<u8, AsmError>(22u8));
    } else if r == 23 {
        reveal_strlit("23");
        crate::numparse::lemma_radix_val_two("23"@, 10);
        lemma_dec_token_resolves("23"@, 23);
        assert(reg_spec("23"@) == Ok::<u8, AsmError>(23u8));
    } else if r == 24 {
        reveal_strlit("24");
        crate::numparse::lemma_radix_val_two("24"@, 10);
        lemma_dec_token_resolves("24"@, 24);
        assert(reg_spec("24"@) == Ok::<u8, AsmError>(24u8));
    } else if r == 25 {
        reveal_strlit("25");
        crate::numparse::lemma_radix_val_two("25"@, 10);
        lemma_dec_token_resolves("25"@, 25);
        assert(reg_spec("25"@) == Ok::<u8, AsmError>(25u8));
    } else if r == 26 {
        reveal_strlit("26");
        crate::numparse::lemma_radix_val_two("26"@, 10);
        lemma_dec_token_resolves("26"@, 26);
        assert(reg_spec("26"@) == Ok::<u8, AsmError>(26u8));
    } else if r == 27 {
        reveal_strlit("27");
        crate::numparse::lemma_radix_val_two("27"@, 10);
        lemma_dec_token_resolves("27"@, 27);
        assert(reg_spec("27"@) == Ok::<u8, AsmError>(27u8));
    } else if r == 28 {
        reveal_strlit("28");
        crate::numparse::lemma_radix_val_two("28"@, 10);
        lemma_dec_token_resolves("28"@, 28);
        assert(reg_spec("28"@) == Ok::<u8, AsmError>(28u8));
    } else if r == 29 {
        reveal_strlit("29");
        crate::numparse::lemma_radix_val_two("29"@, 10);
        lemma_dec_token_resolves("29"@, 29);
        assert(reg_spec("29"@) == Ok::<u8, AsmError>(29u8));
    } else if r == 30 {
        reveal_strlit("30");
        crate::numparse::lemma_radix_val_two("30"@, 10);
        lemma_dec_token_resolves("30"@, 30);
        assert(reg_spec("30"@) == Ok::<u8, AsmError>(30u8));
    } else if r == 31 {
        reveal_strlit("31");
        crate::numparse::lemma_radix_val_two("31"@, 10);
        lemma_dec_token_resolves("31"@, 31);
        assert(reg_spec("31"@) == Ok::<u8, AsmError>(31u8));
    }
}

} // verus!
