//! Decimal numerals: canonical formatting of integers, parsing of digit
//! strings, and the exact ordering of decimal numeral texts that the
//! comparison directives use.

use vstd::prelude::*;

use crate::text::{push_char, spec_is_digit, is_digit, string_from_chars};

verus! {

/// The digit character for a value below ten.
pub open spec fn spec_digit_char(d: int) -> char
    recommends
        0 <= d < 10,
{
    ((d + 48) as u8) as char
}

/// The decimal digits of a non-negative integer, most significant first.
pub open spec fn spec_nat_digits(n: int) -> Seq<char>
    recommends
        n >= 0,
    decreases n,
{
    if n < 10 {
        seq![spec_digit_char(n)]
    } else {
        spec_nat_digits(n / 10).push(spec_digit_char(n % 10))
    }
}

/// The canonical decimal text of a signed integer.
pub open spec fn spec_int_text(i: int) -> Seq<char> {
    if i < 0 {
        seq!['-'] + spec_nat_digits(-i)
    } else {
        spec_nat_digits(i)
    }
}

fn digit_char(d: u64) -> (c: char)
    requires
        d < 10,
    ensures
        c == spec_digit_char(d as int),
{
    ((d + 48) as u8) as char
}

/// Appends the decimal digits of `n` to `out`, most significant first.
fn push_nat_digits(n: u64, out: &mut String)
    ensures
        final(out)@ == old(out)@ + spec_nat_digits(n as int),
    decreases n,
{
    if n < 10 {
        push_char(out, digit_char(n));
    } else {
        push_nat_digits(n / 10, out);
        push_char(out, digit_char(n % 10));
    }
}

/// The canonical decimal rendering of a 64-bit signed integer.
pub fn int_to_string(i: i64) -> (s: String)
    ensures
        s@ == spec_int_text(i as int),
{
    let mut out = String::new();
    if i < 0 {
        push_char(&mut out, '-');
        let m: u64 = (-(i as i128)) as u64;
        push_nat_digits(m, &mut out);
        proof {
            assert(out@ =~= seq!['-'] + spec_nat_digits(-(i as int)));
        }
    } else {
        push_nat_digits(i as u64, &mut out);
    }
    out
}

/// Every character of the sequence is an ASCII digit.
pub open spec fn spec_all_digits(s: Seq<char>) -> bool {
    forall|i: int| 0 <= i < s.len() ==> spec_is_digit(#[trigger] s[i])
}

/// The numeric value of a digit character.
pub open spec fn spec_digit_val(c: char) -> int {
    c as u32 - 48
}

/// The value of a digit string, most significant digit first.
pub open spec fn spec_digits_val(s: Seq<char>) -> int
    decreases s.len(),
{
    if s.len() == 0 {
        0
    } else {
        spec_digits_val(s.drop_last()) * 10 + spec_digit_val(s.last())
    }
}

/// The value of a digit string never goes down when digits are appended,
/// and a prefix of a digit string is worth no more than the whole.
pub proof fn lemma_digits_val_prefix(s: Seq<char>, i: int)
    requires
        0 <= i <= s.len(),
        spec_all_digits(s),
    ensures
        spec_digits_val(s.take(i)) <= spec_digits_val(s),
        spec_digits_val(s) >= 0,
    decreases s.len() - i,
{
    lemma_digits_val_nonneg(s);
    if i < s.len() {
        lemma_digits_val_nonneg(s.take(i));
        assert(s.take(i + 1).drop_last() =~= s.take(i));
        assert(spec_digits_val(s.take(i + 1)) == spec_digits_val(s.take(i)) * 10
            + spec_digit_val(s.take(i + 1).last()));
        assert(spec_is_digit(s[i]));
        assert(spec_digit_val(s[i]) >= 0);
        assert(spec_digits_val(s.take(i)) <= spec_digits_val(s.take(i)) * 10) by (nonlinear_arith)
            requires spec_digits_val(s.take(i)) >= 0;
        lemma_digits_val_prefix(s, i + 1);
    } else {
        assert(s.take(i) =~= s);
    }
}

/// A digit string's value is non-negative.
pub proof fn lemma_digits_val_nonneg(s: Seq<char>)
    requires
        spec_all_digits(s),
    ensures
        spec_digits_val(s) >= 0,
    decreases s.len(),
{
    if s.len() > 0 {
        assert(spec_all_digits(s.drop_last()));
        lemma_digits_val_nonneg(s.drop_last());
        assert(spec_is_digit(s.last()));
        assert(spec_digits_val(s.drop_last()) * 10 >= 0) by (nonlinear_arith)
            requires spec_digits_val(s.drop_last()) >= 0;
    }
}

/// Parses a non-empty all-digit string as an unsigned 64-bit value.
/// `None` when the string is empty, holds a non-digit, or the value
/// does not fit.
pub open spec fn spec_parse_u64(s: Seq<char>) -> Option<u64> {
    if s.len() > 0 && spec_all_digits(s) && spec_digits_val(s) <= u64::MAX {
        Some(spec_digits_val(s) as u64)
    } else {
        None
    }
}

/// Parses the characters `v` as a decimal u64.
pub fn parse_u64(v: &Vec<char>) -> (r: Option<u64>)
    ensures
        r == spec_parse_u64(v@),
{
    if v.len() == 0 {
        return None;
    }
    let mut acc: u64 = 0;
    let mut i: usize = 0;
    while i < v.len()
        invariant
            i <= v.len(),
            spec_all_digits(v@.take(i as int)),
            acc == spec_digits_val(v@.take(i as int)),
        decreases v.len() - i,
    {
        let c = v[i];
        if !is_digit(c) {
            assert(!spec_all_digits(v@));
            return None;
        }
        let d: u64 = (c as u32 - 48) as u64;
        if acc > (u64::MAX - d) / 10 {
            proof {
                assert(spec_all_digits(v@.take(i + 1)));
                assert(v@.take(i + 1).drop_last() =~= v@.take(i as int));
                assert(spec_digits_val(v@.take(i + 1)) == acc * 10 + d);
                assert(acc * 10 + d > u64::MAX) by (nonlinear_arith)
                    requires
                        acc > (u64::MAX - d) / 10,
                        d < 10,
                        acc >= 0;
                if spec_all_digits(v@) {
                    lemma_digits_val_prefix(v@, i + 1);
                    assert(spec_digits_val(v@) > u64::MAX);
                }
            }
            return None;
        }
        proof {
            assert(v@.take(i + 1).drop_last() =~= v@.take(i as int));
            assert(spec_all_digits(v@.take(i + 1)));
        }
        acc = acc * 10 + d;
        i = i + 1;
    }
    proof {
        assert(v@.take(v.len() as int) =~= v@);
    }
    Some(acc)
}

/// Parses a non-empty all-digit string as a non-negative `i64`.
pub open spec fn spec_parse_i64(s: Seq<char>) -> Option<i64> {
    if s.len() > 0 && spec_all_digits(s) && spec_digits_val(s) <= i64::MAX {
        Some(spec_digits_val(s) as i64)
    } else {
        None
    }
}

/// Parses the characters `v` as a decimal, unsigned `i64`.
pub fn parse_i64_digits(v: &Vec<char>) -> (r: Option<i64>)
    ensures
        r == spec_parse_i64(v@),
{
    match parse_u64(v) {
        Some(u) => {
            proof {
                lemma_digits_val_nonneg(v@);
            }
            if u <= i64::MAX as u64 {
                Some(u as i64)
            } else {
                None
            }
        },
        None => {
            proof {
                if v@.len() > 0 && spec_all_digits(v@) {
                    lemma_digits_val_nonneg(v@);
                }
            }
            None
        },
    }
}

} // verus!
