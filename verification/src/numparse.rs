//! Numeric literal parsing for immediates, shift amounts and jump targets.
//!
//! `base_parse` accepts `0x` hexadecimal, `0b` binary, `0`-prefixed octal and
//! plain decimal forms.  A literal is well formed when it has at least one
//! digit after its prefix, every character is a digit of the radix, and the
//! value fits in 32 bits; sign prefixes are not part of the grammar.

use vstd::prelude::*;
use crate::errors::AsmError;

verus! {

/// The value of `c` as a digit of `radix`, when it is one.  Both lower- and
/// upper-case letters serve as the digits past nine.
pub open spec fn digit_in_radix(c: char, radix: u32) -> Option<u32> {
    let cv = c as u32;
    if 48 <= cv && cv <= 57 && cv - 48 < radix {
        Some((cv - 48) as u32)
    } else if 97 <= cv && cv <= 102 && cv - 87 < radix {
        Some((cv - 87) as u32)
    } else if 65 <= cv && cv <= 70 && cv - 55 < radix {
        Some((cv - 55) as u32)
    } else {
        None
    }
}

/// Every character of `s` is a digit of `radix`.
pub open spec fn all_digits(s: Seq<char>, radix: u32) -> bool {
    forall|i: int| 0 <= i < s.len() ==> #[trigger] digit_in_radix(s[i], radix) is Some
}

/// The unbounded value of `s` read in `radix`; characters that are not
/// digits contribute zero and are excluded separately by `all_digits`.
pub open spec fn radix_val(s: Seq<char>, radix: u32) -> nat
    decreases s.len(),
{
    if s.len() == 0 {
        0
    } else {
        (radix_val(s.drop_last(), radix) * radix + (match digit_in_radix(s.last(), radix) {
            Some(d) => d as nat,
            None => 0nat,
        })) as nat
    }
}

/// A prefix of a digit string never exceeds the whole string's value.
pub proof fn lemma_radix_val_prefix_le(s: Seq<char>, i: int, radix: u32)
    requires
        0 <= i <= s.len(),
        radix >= 1,
    ensures
        radix_val(s.take(i), radix) <= radix_val(s, radix),
    decreases s.len() - i,
{
    if i < s.len() {
        let t = s.take(i + 1);
        assert(t.drop_last() =~= s.take(i));
        let p = radix_val(s.take(i), radix);
        assert(p * radix >= p) by (nonlinear_arith)
            requires
                radix >= 1,
        ;
        lemma_radix_val_prefix_le(s, i + 1, radix);
    } else {
        assert(s.take(i) =~= s);
    }
}

/// The value of a one-character digit string.
pub proof fn lemma_radix_val_one(s: Seq<char>, radix: u32)
    requires
        s.len() == 1,
    ensures
        radix_val(s, radix) == (match digit_in_radix(s[0], radix) {
            Some(d) => d as nat,
            None => 0nat,
        }),
{
    assert(s.drop_last() =~= Seq::<char>::empty());
    assert(s.last() == s[0]);
    assert(radix_val(s.drop_last(), radix) == 0);
    assert(radix_val(s, radix) == (0 * radix + (match digit_in_radix(s[0], radix) {
        Some(d) => d as nat,
        None => 0nat,
    })) as nat);
}

/// The value of a two-character digit string.
pub proof fn lemma_radix_val_two(s: Seq<char>, radix: u32)
    requires
        s.len() == 2,
    ensures
        radix_val(s, radix) == (match digit_in_radix(s[0], radix) {
            Some(d) => d as nat,
            None => 0nat,
        }) * radix + (match digit_in_radix(s[1], radix) {
            Some(d) => d as nat,
            None => 0nat,
        }),
{
    lemma_radix_val_one(s.drop_last(), radix);
    assert(s.drop_last()[0] == s[0]);
}

/// What parsing the digits of `s` in `radix` yields: the value when `s` is a
/// non-empty all-digit string whose value fits in 32 bits, a malformed
/// immediate otherwise.
pub open spec fn spec_parse_radix(s: Seq<char>, radix: u32) -> Result<u32, AsmError> {
    if s.len() > 0 && all_digits(s, radix) && radix_val(s, radix) < 0x100000000 {
        Ok(radix_val(s, radix) as u32)
    } else {
        Err(AsmError::MalformedImmediate)
    }
}

/// What `base_parse` returns: the radix is chosen by the prefix, then the
/// rest of the token is read as digits of that radix.
pub open spec fn spec_base_parse(s: Seq<char>) -> Result<u32, AsmError> {
    if s.len() >= 2 && s[0] == '0' && s[1] == 'x' {
        spec_parse_radix(s.skip(2), 16)
    } else if s.len() >= 2 && s[0] == '0' && s[1] == 'b' {
        spec_parse_radix(s.skip(2), 2)
    } else if s.len() > 1 && s[0] == '0' {
        spec_parse_radix(s.skip(1), 8)
    } else {
        spec_parse_radix(s, 10)
    }
}

/// Exec counterpart of `digit_in_radix`.
pub(crate) fn digit_of(c: char, radix: u32) -> (r: Option<u32>)
    ensures
        r == digit_in_radix(c, radix),
{
    let cv = c as u32;
    if cv >= 48 && cv <= 57 && cv - 48 < radix {
        Some(cv - 48)
    } else if cv >= 97 && cv <= 102 && cv - 87 < radix {
        Some(cv - 87)
    } else if cv >= 65 && cv <= 70 && cv - 55 < radix {
        Some(cv - 55)
    } else {
        None
    }
}

/// Reads `s` from character `start` on as digits of `radix`.
fn parse_radix(s: &str, start: usize, radix: u32) -> (r: Result<u32, AsmError>)
    requires
        2 <= radix <= 16,
        start <= s@.len(),
    ensures
        r == spec_parse_radix(s@.skip(start as int), radix),
{
    let ghost digits = s@.skip(start as int);
    let n = s.unicode_len();
    if start == n {
        return Err(AsmError::MalformedImmediate);
    }
    let mut acc: u64 = 0;
    let mut i: usize = start;
    while i < n
        invariant
            start <= i <= n,
            n == s@.len(),
            2 <= radix <= 16,
            digits == s@.skip(start as int),
            acc <= 0xffff_ffffu64,
            acc as nat == radix_val(digits.take(i - start), radix),
            all_digits(digits.take(i - start), radix),
        decreases n - i,
    {
        let c = s.get_char(i);
        proof {
            assert(digits[i - start] == s@[i as int]);
        }
        let d = match digit_of(c, radix) {
            Some(d) => d,
            None => {
                return Err(AsmError::MalformedImmediate);
            },
        };
        proof {
            assert(acc * radix <= 0xffff_ffffu64 * 16) by (nonlinear_arith)
                requires
                    acc <= 0xffff_ffffu64,
                    radix <= 16,
            ;
            assert(digits.take(i - start + 1).drop_last() =~= digits.take(i - start));
        }
        acc = acc * (radix as u64) + (d as u64);
        i += 1;
        if acc > 0xffff_ffffu64 {
            proof {
                lemma_radix_val_prefix_le(digits, i - start, radix);
            }
            return Err(AsmError::MalformedImmediate);
        }
    }
    proof {
        assert(digits.take(n - start) =~= digits);
    }
    Ok(acc as u32)
}

/// Parses a numeric token, choosing the radix from its prefix exactly as
/// `spec_base_parse` states.
pub fn base_parse(input: &str) -> (r: Result<u32, AsmError>)
    ensures
        r == spec_base_parse(input@),
{
    let n = input.unicode_len();
    if n >= 2 && input.get_char(0) == '0' && input.get_char(1) == 'x' {
        parse_radix(input, 2, 16)
    } else if n >= 2 && input.get_char(0) == '0' && input.get_char(1) == 'b' {
        parse_radix(input, 2, 2)
    } else if n > 1 && input.get_char(0) == '0' {
        parse_radix(input, 1, 8)
    } else {
        let r = parse_radix(input, 0, 10);
        proof {
            assert(input@.skip(0) =~= input@);
        }
        r
    }
}

} // verus!
