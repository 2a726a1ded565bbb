//! Decimal numeral texts.
//!
//! A numeral is an optional sign followed by decimal digits with at most one
//! decimal point and at least one digit (`42`, `-3.25`, `.5`, `120.50`).
//! This module parses such texts, renders them in canonical form (no leading
//! or trailing zero digits, no trailing point, no sign on zero), and orders
//! two numeral texts by their exact numeric value.

use vstd::prelude::*;

use crate::text::{spec_is_digit, is_digit};
use crate::num::{spec_all_digits, spec_digit_val, spec_digits_val, lemma_digits_val_nonneg};

verus! {

/// The index of the first `.` in `s`, or `s.len()` when there is none.
pub open spec fn spec_dot_index(s: Seq<char>) -> int
    decreases s.len(),
{
    if s.len() == 0 {
        0
    } else if s[0] == '.' {
        0
    } else {
        1 + spec_dot_index(s.skip(1))
    }
}

pub proof fn lemma_dot_index(s: Seq<char>)
    ensures
        0 <= spec_dot_index(s) <= s.len(),
        spec_dot_index(s) < s.len() ==> s[spec_dot_index(s)] == '.',
        forall|j: int| 0 <= j < spec_dot_index(s) ==> s[j] != '.',
    decreases s.len(),
{
    if s.len() > 0 && s[0] != '.' {
        lemma_dot_index(s.skip(1));
        assert forall|j: int| 0 <= j < spec_dot_index(s) implies s[j] != '.' by {
            if j > 0 {
                assert(s.skip(1)[j - 1] != '.');
            }
        }
    }
}

/// The sign and the digit runs before and after the decimal point of a
/// numeral, or `None` when the text is not a numeral.
pub open spec fn spec_numeral_parts(s: Seq<char>) -> Option<(bool, Seq<char>, Seq<char>)> {
    if s.len() == 0 {
        None
    } else {
        let neg = s[0] == '-';
        let body = if s[0] == '-' || s[0] == '+' {
            s.skip(1)
        } else {
            s
        };
        let d = spec_dot_index(body);
        let ip = body.take(d);
        let fp = if d < body.len() {
            body.skip(d + 1)
        } else {
            Seq::<char>::empty()
        };
        if spec_all_digits(ip) && spec_all_digits(fp) && ip.len() + fp.len() >= 1 {
            Some((neg, ip, fp))
        } else {
            None
        }
    }
}

/// Whether the text is a decimal numeral.
pub open spec fn spec_is_numeral(s: Seq<char>) -> bool {
    spec_numeral_parts(s) is Some
}

/// Digits with the leading zero digits removed.
pub open spec fn spec_strip_leading_zeros(s: Seq<char>) -> Seq<char>
    decreases s.len(),
{
    if s.len() > 0 && s[0] == '0' {
        spec_strip_leading_zeros(s.skip(1))
    } else {
        s
    }
}

/// Digits with the trailing zero digits removed.
pub open spec fn spec_strip_trailing_zeros(s: Seq<char>) -> Seq<char>
    decreases s.len(),
{
    if s.len() > 0 && s.last() == '0' {
        spec_strip_trailing_zeros(s.drop_last())
    } else {
        s
    }
}

/// A numeral denotes zero when every digit in it is zero.
pub open spec fn spec_numeral_is_zero(s: Seq<char>) -> bool {
    match spec_numeral_parts(s) {
        Some((neg, ip, fp)) => spec_strip_leading_zeros(ip).len() == 0
            && spec_strip_trailing_zeros(fp).len() == 0,
        None => false,
    }
}

/// The canonical text of a numeral; a text that is not a numeral is kept
/// as it stands.
pub open spec fn spec_canon_numeral(s: Seq<char>) -> Seq<char> {
    match spec_numeral_parts(s) {
        None => s,
        Some((neg, ip, fp)) => {
            let ci = spec_strip_leading_zeros(ip);
            let cf = spec_strip_trailing_zeros(fp);
            let ipart = if ci.len() == 0 {
                seq!['0']
            } else {
                ci
            };
            if cf.len() == 0 {
                if neg && ci.len() > 0 {
                    seq!['-'] + ipart
                } else {
                    ipart
                }
            } else {
                if neg {
                    seq!['-'] + ipart + seq!['.'] + cf
                } else {
                    ipart + seq!['.'] + cf
                }
            }
        },
    }
}

/// Lexicographic comparison of two equally long digit runs:
/// -1, 0 or 1 as the first is below, at, or above the second.
pub open spec fn spec_cmp_digits(a: Seq<char>, b: Seq<char>) -> int
    recommends
        a.len() == b.len(),
    decreases a.len(),
{
    if a.len() == 0 || b.len() == 0 {
        0
    } else if a[0] != b[0] {
        if spec_digit_val(a[0]) < spec_digit_val(b[0]) {
            -1
        } else {
            1
        }
    } else {
        spec_cmp_digits(a.skip(1), b.skip(1))
    }
}

/// Comparison of two fraction-digit runs, both free of trailing zeros.
/// A run that ends while the other still has digits is the smaller one.
pub open spec fn spec_cmp_frac(a: Seq<char>, b: Seq<char>) -> int
    decreases a.len() + b.len(),
{
    if a.len() == 0 && b.len() == 0 {
        0
    } else if a.len() == 0 {
        -1
    } else if b.len() == 0 {
        1
    } else if a[0] != b[0] {
        if spec_digit_val(a[0]) < spec_digit_val(b[0]) {
            -1
        } else {
            1
        }
    } else {
        spec_cmp_frac(a.skip(1), b.skip(1))
    }
}

/// Comparison of two numeral magnitudes given as stripped integer and
/// fraction digit runs: a longer integer part is the larger magnitude;
/// equal lengths are decided digit by digit, then by the fractions.
pub open spec fn spec_cmp_magnitude(
    ia: Seq<char>,
    fa: Seq<char>,
    ib: Seq<char>,
    fb: Seq<char>,
) -> int {
    if ia.len() < ib.len() {
        -1
    } else if ia.len() > ib.len() {
        1
    } else {
        let c = spec_cmp_digits(ia, ib);
        if c != 0 {
            c
        } else {
            spec_cmp_frac(fa, fb)
        }
    }
}

/// Orders two numeral texts by numeric value: -1, 0 or 1.
/// Zero equals zero whatever its spelling or sign.
pub open spec fn spec_numeral_cmp(a: Seq<char>, b: Seq<char>) -> int
    recommends
        spec_is_numeral(a),
        spec_is_numeral(b),
{
    let pa = spec_numeral_parts(a)->Some_0;
    let pb = spec_numeral_parts(b)->Some_0;
    let ia = spec_strip_leading_zeros(pa.1);
    let fa = spec_strip_trailing_zeros(pa.2);
    let ib = spec_strip_leading_zeros(pb.1);
    let fb = spec_strip_trailing_zeros(pb.2);
    let za = ia.len() == 0 && fa.len() == 0;
    let zb = ib.len() == 0 && fb.len() == 0;
    if za && zb {
        0
    } else if za {
        if pb.0 {
            1
        } else {
            -1
        }
    } else if zb {
        if pa.0 {
            -1
        } else {
            1
        }
    } else if pa.0 && !pb.0 {
        -1
    } else if !pa.0 && pb.0 {
        1
    } else if pa.0 {
        -spec_cmp_magnitude(ia, fa, ib, fb)
    } else {
        spec_cmp_magnitude(ia, fa, ib, fb)
    }
}

/// The parsed form of a numeral text: its sign and its digit runs.
pub struct NumeralParts {
    pub neg: bool,
    pub int_digits: Vec<char>,
    pub frac_digits: Vec<char>,
}

impl NumeralParts {
    pub open spec fn matches(&self, s: Seq<char>) -> bool {
        spec_numeral_parts(s) == Some((self.neg, self.int_digits@, self.frac_digits@))
    }
}

fn find_dot(v: &Vec<char>, start: usize) -> (r: usize)
    requires
        start <= v.len(),
    ensures
        r == start + spec_dot_index(v@.skip(start as int)),
        start <= r <= v.len(),
{
    let mut i: usize = start;
    while i < v.len()
        invariant
            start <= i <= v.len(),
            forall|j: int| start <= j < i ==> v@[j] != '.',
        decreases v.len() - i,
    {
        if v[i] == '.' {
            proof {
                lemma_dot_index(v@.skip(start as int));
                let d = spec_dot_index(v@.skip(start as int));
                if start + d < i {
                    assert(v@[start + d] != '.');
                    assert(v@.skip(start as int)[d] == v@[start + d]);
                } else if start + d > i {
                    assert(v@.skip(start as int)[i - start] != '.');
                }
            }
            return i;
        }
        i = i + 1;
    }
    proof {
        lemma_dot_index(v@.skip(start as int));
        let d = spec_dot_index(v@.skip(start as int));
        if start + d < v.len() {
            assert(v@.skip(start as int)[d] == v@[start + d]);
            assert(v@[start + d] != '.');
        }
    }
    v.len()
}

fn all_digits_range(v: &Vec<char>, from: usize, to: usize) -> (r: bool)
    requires
        from <= to <= v.len(),
    ensures
        r == spec_all_digits(v@.subrange(from as int, to as int)),
{
    let mut i: usize = from;
    while i < to
        invariant
            from <= i <= to <= v.len(),
            forall|j: int| from <= j < i ==> spec_is_digit(#[trigger] v@[j]),
        decreases to - i,
    {
        if !is_digit(v[i]) {
            proof {
                assert(v@.subrange(from as int, to as int)[i - from] == v@[i as int]);
            }
            return false;
        }
        i = i + 1;
    }
    proof {
        let sub = v@.subrange(from as int, to as int);
        assert forall|j: int| 0 <= j < sub.len() implies spec_is_digit(#[trigger] sub[j]) by {
            assert(sub[j] == v@[from + j]);
        }
    }
    true
}

fn copy_range(v: &Vec<char>, from: usize, to: usize) -> (r: Vec<char>)
    requires
        from <= to <= v.len(),
    ensures
        r@ == v@.subrange(from as int, to as int),
{
    let mut out: Vec<char> = Vec::new();
    let mut i: usize = from;
    while i < to
        invariant
            from <= i <= to <= v.len(),
            out@ == v@.subrange(from as int, i as int),
        decreases to - i,
    {
        out.push(v[i]);
        proof {
            assert(v@.subrange(from as int, i + 1) =~= v@.subrange(from as int, i as int).push(
                v@[i as int],
            ));
        }
        i = i + 1;
    }
    out
}

/// Parses the characters of a numeral into sign and digit runs.
pub fn parse_numeral(v: &Vec<char>) -> (r: Option<NumeralParts>)
    ensures
        match r {
            Some(p) => p.matches(v@),
            None => !spec_is_numeral(v@),
        },
{
    if v.len() == 0 {
        return None;
    }
    let c0 = v[0];
    let neg = c0 == '-';
    let start: usize = if c0 == '-' || c0 == '+' {
        1
    } else {
        0
    };
    let ghost body = v@.skip(start as int);
    proof {
        if start == 0 {
            assert(v@.skip(0) =~= v@);
        }
    }
    let d = find_dot(v, start);
    proof {
        assert(body.take(spec_dot_index(body)) =~= v@.subrange(start as int, d as int));
    }
    let ip = copy_range(v, start, d);
    let fp: Vec<char> = if d < v.len() {
        proof {
            assert(spec_dot_index(body) < body.len());
            assert(body.skip(spec_dot_index(body) + 1) =~= v@.subrange(d + 1, v.len() as int));
        }
        copy_range(v, d + 1, v.len())
    } else {
        proof {
            assert(spec_dot_index(body) >= body.len() ==> spec_dot_index(body) == body.len()) by {
                lemma_dot_index(body);
            }
        }
        Vec::new()
    };
    let ip_ok = all_digits_range(v, start, d);
    let fp_ok = if d < v.len() {
        all_digits_range(v, d + 1, v.len())
    } else {
        true
    };
    proof {
        assert(ip@ == v@.subrange(start as int, d as int));
        if d >= v.len() {
            assert(fp@ =~= Seq::<char>::empty());
            assert(spec_all_digits(fp@));
        }
    }
    if ip_ok && fp_ok && ip.len() + fp.len() >= 1 {
        Some(NumeralParts { neg, int_digits: ip, frac_digits: fp })
    } else {
        None
    }
}

/// The number of leading zero digits of `v`.
fn leading_zeros(v: &Vec<char>) -> (k: usize)
    ensures
        k <= v.len(),
        spec_strip_leading_zeros(v@) == v@.skip(k as int),
{
    proof {
        assert(v@.skip(0) =~= v@);
    }
    let mut i: usize = 0;
    while i < v.len()
        invariant
            i <= v.len(),
            spec_strip_leading_zeros(v@) == spec_strip_leading_zeros(v@.skip(i as int)),
        decreases v.len() - i,
    {
        if v[i] != '0' {
            return i;
        }
        proof {
            assert(v@.skip(i as int)[0] == '0');
            assert(v@.skip(i as int).skip(1) =~= v@.skip(i + 1));
        }
        i = i + 1;
    }
    proof {
        assert(v@.skip(v@.len() as int).len() == 0);
    }
    v.len()
}

/// The number of digits of `v` that remain once trailing zeros go.
fn trailing_kept(v: &Vec<char>) -> (k: usize)
    ensures
        k <= v.len(),
        spec_strip_trailing_zeros(v@) == v@.take(k as int),
{
    proof {
        assert(v@.take(v@.len() as int) =~= v@);
    }
    let mut i: usize = v.len();
    while i > 0
        invariant
            i <= v.len(),
            spec_strip_trailing_zeros(v@) == spec_strip_trailing_zeros(v@.take(i as int)),
        decreases i,
    {
        if v[i - 1] != '0' {
            proof {
                assert(v@.take(i as int).last() == v@[i - 1]);
            }
            return i;
        }
        proof {
            assert(v@.take(i as int).last() == '0');
            assert(v@.take(i as int).drop_last() =~= v@.take(i - 1));
        }
        i = i - 1;
    }
    proof {
        assert(v@.take(0).len() == 0);
    }
    0
}

/// The canonical digit runs of a parsed numeral: the integer digits without
/// leading zeros and the fraction digits without trailing zeros.
fn stripped_runs(p: &NumeralParts) -> (r: (Vec<char>, Vec<char>))
    ensures
        r.0@ == spec_strip_leading_zeros(p.int_digits@),
        r.1@ == spec_strip_trailing_zeros(p.frac_digits@),
{
    let k = leading_zeros(&p.int_digits);
    let ci = copy_range(&p.int_digits, k, p.int_digits.len());
    proof {
        assert(p.int_digits@.subrange(k as int, p.int_digits@.len() as int) =~= p.int_digits@.skip(
            k as int,
        ));
    }
    let m = trailing_kept(&p.frac_digits);
    let cf = copy_range(&p.frac_digits, 0, m);
    proof {
        assert(p.frac_digits@.subrange(0, m as int) =~= p.frac_digits@.take(m as int));
    }
    (ci, cf)
}

fn cmp_digits(a: &Vec<char>, b: &Vec<char>) -> (r: i8)
    requires
        a.len() == b.len(),
    ensures
        r == spec_cmp_digits(a@, b@),
        -1 <= r <= 1,
{
    proof {
        assert(a@.skip(0) =~= a@);
        assert(b@.skip(0) =~= b@);
    }
    let mut i: usize = 0;
    while i < a.len()
        invariant
            i <= a.len(),
            a.len() == b.len(),
            spec_cmp_digits(a@, b@) == spec_cmp_digits(a@.skip(i as int), b@.skip(i as int)),
        decreases a.len() - i,
    {
        let ca = a[i];
        let cb = b[i];
        proof {
            assert(a@.skip(i as int)[0] == a@[i as int]);
            assert(b@.skip(i as int)[0] == b@[i as int]);
            assert(a@.skip(i as int).skip(1) =~= a@.skip(i + 1));
            assert(b@.skip(i as int).skip(1) =~= b@.skip(i + 1));
        }
        if ca != cb {
            if (ca as u32) < (cb as u32) {
                return -1;
            } else {
                return 1;
            }
        }
        i = i + 1;
    }
    proof {
        assert(a@.skip(a@.len() as int).len() == 0);
    }
    0
}

pub fn cmp_frac(a: &Vec<char>, b: &Vec<char>) -> (r: i8)
    ensures
        r == spec_cmp_frac(a@, b@),
        -1 <= r <= 1,
{
    proof {
        assert(a@.skip(0) =~= a@);
        assert(b@.skip(0) =~= b@);
    }
    let mut i: usize = 0;
    while i < a.len() && i < b.len()
        invariant
            i <= a.len(),
            i <= b.len(),
            spec_cmp_frac(a@, b@) == spec_cmp_frac(a@.skip(i as int), b@.skip(i as int)),
        decreases a.len() - i,
    {
        let ca = a[i];
        let cb = b[i];
        proof {
            assert(a@.skip(i as int)[0] == a@[i as int]);
            assert(b@.skip(i as int)[0] == b@[i as int]);
            assert(a@.skip(i as int).skip(1) =~= a@.skip(i + 1));
            assert(b@.skip(i as int).skip(1) =~= b@.skip(i + 1));
        }
        if ca != cb {
            if (ca as u32) < (cb as u32) {
                return -1;
            } else {
                return 1;
            }
        }
        i = i + 1;
    }
    proof {
        assert(a@.skip(i as int).len() == 0 || b@.skip(i as int).len() == 0);
    }
    if i < b.len() {
        -1
    } else if i < a.len() {
        1
    } else {
        0
    }
}

/// Orders two numeral texts by numeric value.
pub fn numeral_cmp(a: &Vec<char>, b: &Vec<char>) -> (r: Option<i8>)
    ensures
        match r {
            Some(c) => spec_is_numeral(a@) && spec_is_numeral(b@) && c == spec_numeral_cmp(a@, b@),
            None => !(spec_is_numeral(a@) && spec_is_numeral(b@)),
        },
{
    let pa = match parse_numeral(a) {
        Some(p) => p,
        None => {
            return None;
        },
    };
    let pb = match parse_numeral(b) {
        Some(p) => p,
        None => {
            return None;
        },
    };
    let (ia, fa) = stripped_runs(&pa);
    let (ib, fb) = stripped_runs(&pb);
    let za = ia.len() == 0 && fa.len() == 0;
    let zb = ib.len() == 0 && fb.len() == 0;
    let r: i8 = if za && zb {
        0
    } else if za {
        if pb.neg {
            1
        } else {
            -1
        }
    } else if zb {
        if pa.neg {
            -1
        } else {
            1
        }
    } else if pa.neg && !pb.neg {
        -1
    } else if !pa.neg && pb.neg {
        1
    } else {
        let m: i8 = if ia.len() < ib.len() {
            -1
        } else if ia.len() > ib.len() {
            1
        } else {
            let c = cmp_digits(&ia, &ib);
            if c != 0 {
                c
            } else {
                cmp_frac(&fa, &fb)
            }
        };
        if pa.neg {
            -m
        } else {
            m
        }
    };
    Some(r)
}

/// Whether the characters form a numeral whose every digit is zero.
pub fn numeral_is_zero(v: &Vec<char>) -> (r: bool)
    ensures
        r == spec_numeral_is_zero(v@),
{
    match parse_numeral(v) {
        Some(p) => {
            let (ci, cf) = stripped_runs(&p);
            ci.len() == 0 && cf.len() == 0
        },
        None => false,
    }
}

/// Rewrites a numeral in canonical form; other texts come back unchanged.
pub fn canon_numeral(v: &Vec<char>) -> (r: Vec<char>)
    ensures
        r@ == spec_canon_numeral(v@),
{
    let p = match parse_numeral(v) {
        Some(p) => p,
        None => {
            return copy_range(v, 0, v.len());
        },
    };
    let (ci, cf) = stripped_runs(&p);
    let mut out: Vec<char> = Vec::new();
    let zero_int = ci.len() == 0;
    if cf.len() == 0 {
        if p.neg && !zero_int {
            out.push('-');
        }
        if zero_int {
            out.push('0');
            proof {
                assert(out@ =~= seq!['0']);
            }
        } else {
            append_all(&mut out, &ci);
        }
    } else {
        if p.neg {
            out.push('-');
        }
        if zero_int {
            out.push('0');
        } else {
            append_all(&mut out, &ci);
        }
        out.push('.');
        append_all(&mut out, &cf);
    }
    proof {
        let parts = spec_numeral_parts(v@)->Some_0;
        let sci = spec_strip_leading_zeros(parts.1);
        let scf = spec_strip_trailing_zeros(parts.2);
        let ipart: Seq<char> = if sci.len() == 0 {
            seq!['0']
        } else {
            sci
        };
        if scf.len() == 0 {
            if parts.0 && sci.len() > 0 {
                assert(out@ =~= seq!['-'] + ipart);
            } else {
                assert(out@ =~= ipart);
            }
        } else {
            if parts.0 {
                assert(out@ =~= seq!['-'] + ipart + seq!['.'] + scf);
            } else {
                assert(out@ =~= ipart + seq!['.'] + scf);
            }
        }
    }
    out
}

fn append_all(out: &mut Vec<char>, src: &Vec<char>)
    ensures
        final(out)@ == old(out)@ + src@,
{
    proof {
        assert(old(out)@ + src@.take(0) =~= old(out)@);
    }
    let mut i: usize = 0;
    while i < src.len()
        invariant
            i <= src.len(),
            out@ == old(out)@ + src@.take(i as int),
        decreases src.len() - i,
    {
        out.push(src[i]);
        proof {
            assert(old(out)@ + src@.take(i + 1) =~= (old(out)@ + src@.take(i as int)).push(
                src@[i as int],
            ));
        }
        i = i + 1;
    }
    proof {
        assert(src@.take(src@.len() as int) =~= src@);
    }
}

// What the structural ordering above means numerically: `spec_numeral_cmp`
// orders two numeral texts exactly as their values order, where the value
// of a numeral with sign `neg`, integer digits `ip` and fraction digits
// `fp`, scaled by ten to the `k` for any `k` at least `fp.len()`, is
// `sign * (digits_val(ip) * 10^k + digits_val(fp) * 10^(k - fp.len()))`.

/// Ten to the `k`.
pub open spec fn spec_pow10(k: nat) -> int
    decreases k,
{
    if k == 0 {
        1
    } else {
        10 * spec_pow10((k - 1) as nat)
    }
}

pub proof fn lemma_pow10_pos(k: nat)
    ensures
        spec_pow10(k) >= 1,
    decreases k,
{
    if k > 0 {
        lemma_pow10_pos((k - 1) as nat);
    }
}

/// A digit character's value lies between 0 and 9, and only `0` itself
/// has value zero.
proof fn lemma_digit_val_props(c: char)
    requires
        spec_is_digit(c),
    ensures
        0 <= spec_digit_val(c) <= 9,
        c != '0' ==> spec_digit_val(c) >= 1,
{
    assert('0' as u32 == 48);
    if c as u32 == 48 {
        assert(c == '0');
    }
}

/// Distinct digit characters have distinct values.
proof fn lemma_digit_val_distinct(a: char, b: char)
    requires
        spec_is_digit(a),
        spec_is_digit(b),
        a != b,
    ensures
        spec_digit_val(a) != spec_digit_val(b),
{
    if a as u32 == b as u32 {
        assert(a == b);
    }
}

/// The value of a numeral's fraction digits, scaled to `k` places.
pub open spec fn spec_scaled_frac(fp: Seq<char>, k: nat) -> int
    recommends
        fp.len() <= k,
{
    spec_digits_val(fp) * spec_pow10((k - fp.len()) as nat)
}

/// The signed value of a numeral's parts, scaled by ten to the `k`.
pub open spec fn spec_numeral_scaled(p: (bool, Seq<char>, Seq<char>), k: nat) -> int
    recommends
        p.2.len() <= k,
{
    let mag = spec_digits_val(p.1) * spec_pow10(k) + spec_scaled_frac(p.2, k);
    if p.0 {
        -mag
    } else {
        mag
    }
}

/// Front decomposition of a digit string's value.
proof fn lemma_digits_val_front(s: Seq<char>)
    requires
        s.len() >= 1,
        spec_all_digits(s),
    ensures
        spec_digits_val(s) == spec_digit_val(s[0]) * spec_pow10((s.len() - 1) as nat)
            + spec_digits_val(s.skip(1)),
    decreases s.len(),
{
    if s.len() == 1 {
        assert(s.drop_last().len() == 0);
        assert(s.skip(1).len() == 0);
        assert(s.last() == s[0]);
        assert(spec_digits_val(s.drop_last()) == 0);
        assert(spec_digits_val(s.skip(1)) == 0);
        assert(spec_digits_val(s) == spec_digit_val(s[0]));
        assert(spec_pow10(0) == 1);
        assert(spec_digit_val(s[0]) * 1 == spec_digit_val(s[0])) by (nonlinear_arith);
    } else {
        let dl = s.drop_last();
        assert(spec_all_digits(dl));
        lemma_digits_val_front(dl);
        assert(s.skip(1).drop_last() =~= dl.skip(1));
        assert(spec_digits_val(s.skip(1)) == spec_digits_val(s.skip(1).drop_last()) * 10
            + spec_digit_val(s.skip(1).last()));
        assert(s.skip(1).last() == s.last());
        let d0 = spec_digit_val(s[0]);
        let p = spec_pow10((s.len() - 2) as nat);
        assert(dl[0] == s[0]);
        assert(spec_digits_val(dl) == d0 * p + spec_digits_val(dl.skip(1)));
        assert(spec_digits_val(s) == (d0 * p + spec_digits_val(dl.skip(1))) * 10 + spec_digit_val(
            s.last(),
        ));
        assert((d0 * p + spec_digits_val(dl.skip(1))) * 10 == d0 * (10 * p) + spec_digits_val(
            dl.skip(1),
        ) * 10) by (nonlinear_arith);
        assert(spec_pow10((s.len() - 1) as nat) == 10 * p);
        assert(d0 * spec_pow10((s.len() - 1) as nat) == d0 * (10 * p)) by (nonlinear_arith)
            requires
                spec_pow10((s.len() - 1) as nat) == 10 * p,
        ;
        assert(spec_digits_val(s) == d0 * (10 * p) + (spec_digits_val(dl.skip(1)) * 10
            + spec_digit_val(s.last())));
        assert(spec_digits_val(s.skip(1)) == spec_digits_val(dl.skip(1)) * 10 + spec_digit_val(
            s.last(),
        ));
    }
}

/// A digit string's value is below ten to its length.
proof fn lemma_digits_val_upper(s: Seq<char>)
    requires
        spec_all_digits(s),
    ensures
        spec_digits_val(s) < spec_pow10(s.len()),
    decreases s.len(),
{
    if s.len() == 0 {
    } else {
        let dl = s.drop_last();
        assert(spec_all_digits(dl));
        lemma_digits_val_upper(dl);
        assert(spec_is_digit(s.last()));
        assert(spec_digit_val(s.last()) <= 9);
        let p = spec_pow10(dl.len());
        lemma_digits_val_nonneg(dl);
        lemma_digit_val_props(s.last());
        assert(spec_digits_val(dl) * 10 + spec_digit_val(s.last()) < 10 * p) by (nonlinear_arith)
            requires
                spec_digits_val(dl) < p,
                spec_digit_val(s.last()) <= 9,
                spec_digits_val(dl) >= 0,
        ;
        assert(spec_pow10(s.len()) == 10 * p);
    }
}

/// A digit string without a leading zero is worth at least ten to one
/// less than its length.
proof fn lemma_digits_val_lower(s: Seq<char>)
    requires
        s.len() >= 1,
        spec_all_digits(s),
        s[0] != '0',
    ensures
        spec_digits_val(s) >= spec_pow10((s.len() - 1) as nat),
{
    lemma_digits_val_front(s);
    assert(spec_is_digit(s[0]));
    lemma_digit_val_props(s[0]);
    assert(spec_digit_val(s[0]) >= 1);
    let p = spec_pow10((s.len() - 1) as nat);
    lemma_pow10_pos((s.len() - 1) as nat);
    assert(spec_digit_val(s[0]) * p >= p) by (nonlinear_arith)
        requires
            spec_digit_val(s[0]) >= 1,
            p >= 1,
    ;
    assert(spec_all_digits(s.skip(1)));
    lemma_digits_val_nonneg(s.skip(1));
}

/// A leading zero does not change a digit string's value.
proof fn lemma_digits_val_zero_front(s: Seq<char>)
    requires
        s.len() >= 1,
        spec_all_digits(s),
        s[0] == '0',
    ensures
        spec_digits_val(s) == spec_digits_val(s.skip(1)),
{
    lemma_digits_val_front(s);
    assert(spec_digit_val(s[0]) == 0);
    assert(0 * spec_pow10((s.len() - 1) as nat) == 0) by (nonlinear_arith);
}

/// Stripping leading zeros preserves a digit string's value; the stripped
/// run is a suffix with no leading zero.
proof fn lemma_strip_leading_props(s: Seq<char>)
    requires
        spec_all_digits(s),
    ensures
        spec_digits_val(spec_strip_leading_zeros(s)) == spec_digits_val(s),
        spec_all_digits(spec_strip_leading_zeros(s)),
        spec_strip_leading_zeros(s).len() <= s.len(),
        spec_strip_leading_zeros(s).len() > 0 ==> spec_strip_leading_zeros(s)[0] != '0',
    decreases s.len(),
{
    if s.len() > 0 && s[0] == '0' {
        assert(spec_all_digits(s.skip(1)));
        lemma_digits_val_zero_front(s);
        lemma_strip_leading_props(s.skip(1));
    }
}

/// Stripping trailing zeros from fraction digits preserves their scaled
/// value.
proof fn lemma_strip_trailing_scaled(fp: Seq<char>, k: nat)
    requires
        spec_all_digits(fp),
        fp.len() <= k,
    ensures
        spec_scaled_frac(spec_strip_trailing_zeros(fp), k) == spec_scaled_frac(fp, k),
        spec_all_digits(spec_strip_trailing_zeros(fp)),
        spec_strip_trailing_zeros(fp).len() <= fp.len(),
        spec_strip_trailing_zeros(fp).len() > 0 ==> spec_strip_trailing_zeros(fp).last() != '0',
    decreases fp.len(),
{
    if fp.len() > 0 && fp.last() == '0' {
        let dl = fp.drop_last();
        assert(spec_all_digits(dl));
        assert(spec_digits_val(fp) == spec_digits_val(dl) * 10 + 0);
        assert(spec_pow10((k - dl.len()) as nat) == 10 * spec_pow10((k - fp.len()) as nat));
        assert(spec_digits_val(dl) * 10 * spec_pow10((k - fp.len()) as nat) == spec_digits_val(dl)
            * (10 * spec_pow10((k - fp.len()) as nat))) by (nonlinear_arith);
        lemma_strip_trailing_scaled(dl, k);
    }
}

/// A stripped, non-empty fraction run has a positive scaled value.
proof fn lemma_frac_pos(fp: Seq<char>, k: nat)
    requires
        spec_all_digits(fp),
        fp.len() >= 1,
        fp.last() != '0',
        fp.len() <= k,
    ensures
        spec_scaled_frac(fp, k) >= 1,
{
    let dl = fp.drop_last();
    assert(spec_all_digits(dl));
    lemma_digits_val_nonneg(dl);
    assert(spec_is_digit(fp.last()));
    lemma_digit_val_props(fp.last());
    assert(spec_digit_val(fp.last()) >= 1);
    assert(spec_digits_val(fp) == spec_digits_val(dl) * 10 + spec_digit_val(fp.last()));
    assert(spec_digits_val(dl) * 10 >= 0) by (nonlinear_arith)
        requires
            spec_digits_val(dl) >= 0,
    ;
    lemma_pow10_pos((k - fp.len()) as nat);
    assert(spec_digits_val(fp) * spec_pow10((k - fp.len()) as nat) >= 1) by (nonlinear_arith)
        requires
            spec_digits_val(fp) >= 1,
            spec_pow10((k - fp.len()) as nat) >= 1,
    ;
}

/// The scaled fraction value is below ten to the `k`.
proof fn lemma_frac_upper(fp: Seq<char>, k: nat)
    requires
        spec_all_digits(fp),
        fp.len() <= k,
    ensures
        0 <= spec_scaled_frac(fp, k) < spec_pow10(k),
{
    lemma_digits_val_upper(fp);
    lemma_digits_val_nonneg(fp);
    lemma_pow10_pos((k - fp.len()) as nat);
    lemma_pow10_mul(fp.len(), (k - fp.len()) as nat);
    assert(spec_digits_val(fp) * spec_pow10((k - fp.len()) as nat) < spec_pow10(fp.len())
        * spec_pow10((k - fp.len()) as nat)) by (nonlinear_arith)
        requires
            spec_digits_val(fp) < spec_pow10(fp.len()),
            spec_pow10((k - fp.len()) as nat) >= 1,
    ;
    assert(spec_digits_val(fp) * spec_pow10((k - fp.len()) as nat) >= 0) by (nonlinear_arith)
        requires
            spec_digits_val(fp) >= 0,
            spec_pow10((k - fp.len()) as nat) >= 1,
    ;
}

proof fn lemma_pow10_mul(a: nat, b: nat)
    ensures
        spec_pow10(a) * spec_pow10(b) == spec_pow10((a + b) as nat),
    decreases a,
{
    if a == 0 {
    } else {
        lemma_pow10_mul((a - 1) as nat, b);
        assert((10 * spec_pow10((a - 1) as nat)) * spec_pow10(b) == 10 * (spec_pow10(
            (a - 1) as nat,
        ) * spec_pow10(b))) by (nonlinear_arith);
    }
}

/// Lexicographic comparison of equally long digit runs agrees with their
/// values.
proof fn lemma_cmp_digits_values(a: Seq<char>, b: Seq<char>)
    requires
        a.len() == b.len(),
        spec_all_digits(a),
        spec_all_digits(b),
    ensures
        spec_cmp_digits(a, b) == -1 ==> spec_digits_val(a) < spec_digits_val(b),
        spec_cmp_digits(a, b) == 0 ==> spec_digits_val(a) == spec_digits_val(b),
        spec_cmp_digits(a, b) == 1 ==> spec_digits_val(a) > spec_digits_val(b),
    decreases a.len(),
{
    if a.len() == 0 {
    } else if a[0] != b[0] {
        lemma_digits_val_front(a);
        lemma_digits_val_front(b);
        assert(spec_is_digit(a[0]));
        assert(spec_is_digit(b[0]));
        lemma_digit_val_distinct(a[0], b[0]);
        let p = spec_pow10((a.len() - 1) as nat);
        assert(spec_all_digits(a.skip(1)));
        assert(spec_all_digits(b.skip(1)));
        lemma_digits_val_nonneg(a.skip(1));
        lemma_digits_val_nonneg(b.skip(1));
        lemma_digits_val_upper(a.skip(1));
        lemma_digits_val_upper(b.skip(1));
        assert(spec_pow10(a.skip(1).len()) == p);
        lemma_pow10_pos((a.len() - 1) as nat);
        if spec_digit_val(a[0]) < spec_digit_val(b[0]) {
            assert(spec_digit_val(a[0]) * p + spec_digits_val(a.skip(1)) < spec_digit_val(b[0]) * p
                + spec_digits_val(b.skip(1))) by (nonlinear_arith)
                requires
                    spec_digit_val(a[0]) < spec_digit_val(b[0]),
                    spec_digits_val(a.skip(1)) < p,
                    spec_digits_val(b.skip(1)) >= 0,
                    p >= 1,
            ;
        } else {
            assert(spec_digit_val(b[0]) * p + spec_digits_val(b.skip(1)) < spec_digit_val(a[0]) * p
                + spec_digits_val(a.skip(1))) by (nonlinear_arith)
                requires
                    spec_digit_val(b[0]) < spec_digit_val(a[0]),
                    spec_digits_val(b.skip(1)) < p,
                    spec_digits_val(a.skip(1)) >= 0,
                    p >= 1,
            ;
        }
    } else {
        lemma_digits_val_front(a);
        lemma_digits_val_front(b);
        assert(spec_all_digits(a.skip(1)));
        assert(spec_all_digits(b.skip(1)));
        lemma_cmp_digits_values(a.skip(1), b.skip(1));
    }
}

/// Comparison of stripped fraction runs agrees with their scaled values.
proof fn lemma_cmp_frac_values(a: Seq<char>, b: Seq<char>, k: nat)
    requires
        spec_all_digits(a),
        spec_all_digits(b),
        a.len() <= k,
        b.len() <= k,
        a.len() > 0 ==> a.last() != '0',
        b.len() > 0 ==> b.last() != '0',
    ensures
        spec_cmp_frac(a, b) == -1 ==> spec_scaled_frac(a, k) < spec_scaled_frac(b, k),
        spec_cmp_frac(a, b) == 0 ==> spec_scaled_frac(a, k) == spec_scaled_frac(b, k),
        spec_cmp_frac(a, b) == 1 ==> spec_scaled_frac(a, k) > spec_scaled_frac(b, k),
    decreases a.len() + b.len(),
{
    if a.len() == 0 && b.len() == 0 {
    } else if a.len() == 0 {
        lemma_frac_pos(b, k);
        assert(spec_scaled_frac(a, k) == 0) by {
            assert(0 * spec_pow10((k - a.len()) as nat) == 0) by (nonlinear_arith);
        }
    } else if b.len() == 0 {
        lemma_frac_pos(a, k);
        assert(spec_scaled_frac(b, k) == 0) by {
            assert(0 * spec_pow10((k - b.len()) as nat) == 0) by (nonlinear_arith);
        }
    } else {
        lemma_digits_val_front(a);
        lemma_digits_val_front(b);
        let ka = (k - a.len()) as nat;
        let kb = (k - b.len()) as nat;
        let p = spec_pow10((k - 1) as nat);
        // scaled value of x = digit(x[0]) * 10^(k-1) + scaled value of
        // x.skip(1) at k - 1
        assert(spec_all_digits(a.skip(1)));
        assert(spec_all_digits(b.skip(1)));
        lemma_pow10_mul((a.len() - 1) as nat, ka);
        lemma_pow10_mul((b.len() - 1) as nat, kb);
        assert(spec_scaled_frac(a, k) == spec_digit_val(a[0]) * p + spec_scaled_frac(
            a.skip(1),
            (k - 1) as nat,
        )) by {
            assert((spec_digit_val(a[0]) * spec_pow10((a.len() - 1) as nat) + spec_digits_val(
                a.skip(1),
            )) * spec_pow10(ka) == spec_digit_val(a[0]) * (spec_pow10((a.len() - 1) as nat)
                * spec_pow10(ka)) + spec_digits_val(a.skip(1)) * spec_pow10(ka))
                by (nonlinear_arith);
        }
        assert(spec_scaled_frac(b, k) == spec_digit_val(b[0]) * p + spec_scaled_frac(
            b.skip(1),
            (k - 1) as nat,
        )) by {
            assert((spec_digit_val(b[0]) * spec_pow10((b.len() - 1) as nat) + spec_digits_val(
                b.skip(1),
            )) * spec_pow10(kb) == spec_digit_val(b[0]) * (spec_pow10((b.len() - 1) as nat)
                * spec_pow10(kb)) + spec_digits_val(b.skip(1)) * spec_pow10(kb))
                by (nonlinear_arith);
        }
        if a[0] != b[0] {
            assert(spec_is_digit(a[0]));
            assert(spec_is_digit(b[0]));
            lemma_digit_val_distinct(a[0], b[0]);
            lemma_frac_upper(a.skip(1), (k - 1) as nat);
            lemma_frac_upper(b.skip(1), (k - 1) as nat);
            lemma_pow10_pos((k - 1) as nat);
            if spec_digit_val(a[0]) < spec_digit_val(b[0]) {
                assert(spec_digit_val(a[0]) * p + spec_scaled_frac(a.skip(1), (k - 1) as nat)
                    < spec_digit_val(b[0]) * p + spec_scaled_frac(b.skip(1), (k - 1) as nat))
                    by (nonlinear_arith)
                    requires
                        spec_digit_val(a[0]) < spec_digit_val(b[0]),
                        spec_scaled_frac(a.skip(1), (k - 1) as nat) < p,
                        spec_scaled_frac(b.skip(1), (k - 1) as nat) >= 0,
                        p >= 1,
                ;
            } else {
                assert(spec_digit_val(b[0]) * p + spec_scaled_frac(b.skip(1), (k - 1) as nat)
                    < spec_digit_val(a[0]) * p + spec_scaled_frac(a.skip(1), (k - 1) as nat))
                    by (nonlinear_arith)
                    requires
                        spec_digit_val(b[0]) < spec_digit_val(a[0]),
                        spec_scaled_frac(b.skip(1), (k - 1) as nat) < p,
                        spec_scaled_frac(a.skip(1), (k - 1) as nat) >= 0,
                        p >= 1,
                ;
            }
        } else {
            assert(a.skip(1).len() > 0 ==> a.skip(1).last() == a.last());
            assert(b.skip(1).len() > 0 ==> b.skip(1).last() == b.last());
            lemma_cmp_frac_values(a.skip(1), b.skip(1), (k - 1) as nat);
        }
    }
}

/// Magnitude comparison of stripped runs agrees with the scaled values.
proof fn lemma_cmp_magnitude_values(
    ia: Seq<char>,
    fa: Seq<char>,
    ib: Seq<char>,
    fb: Seq<char>,
    k: nat,
)
    requires
        spec_all_digits(ia),
        spec_all_digits(fa),
        spec_all_digits(ib),
        spec_all_digits(fb),
        fa.len() <= k,
        fb.len() <= k,
        ia.len() > 0 ==> ia[0] != '0',
        ib.len() > 0 ==> ib[0] != '0',
        fa.len() > 0 ==> fa.last() != '0',
        fb.len() > 0 ==> fb.last() != '0',
    ensures
        ({
            let ma = spec_digits_val(ia) * spec_pow10(k) + spec_scaled_frac(fa, k);
            let mb = spec_digits_val(ib) * spec_pow10(k) + spec_scaled_frac(fb, k);
            &&& (spec_cmp_magnitude(ia, fa, ib, fb) == -1 ==> ma < mb)
            &&& (spec_cmp_magnitude(ia, fa, ib, fb) == 0 ==> ma == mb)
            &&& (spec_cmp_magnitude(ia, fa, ib, fb) == 1 ==> ma > mb)
        }),
{
    let pk = spec_pow10(k);
    lemma_pow10_pos(k);
    lemma_frac_upper(fa, k);
    lemma_frac_upper(fb, k);
    lemma_digits_val_nonneg(ia);
    lemma_digits_val_nonneg(ib);
    if ia.len() < ib.len() {
        lemma_digits_val_upper(ia);
        lemma_digits_val_lower(ib);
        lemma_pow10_le(ia.len(), (ib.len() - 1) as nat);
        assert(spec_digits_val(ia) < spec_digits_val(ib));
        assert(spec_digits_val(ia) * pk + pk <= spec_digits_val(ib) * pk) by (nonlinear_arith)
            requires
                spec_digits_val(ia) < spec_digits_val(ib),
                pk >= 1,
        ;
    } else if ia.len() > ib.len() {
        lemma_digits_val_upper(ib);
        lemma_digits_val_lower(ia);
        lemma_pow10_le(ib.len(), (ia.len() - 1) as nat);
        assert(spec_digits_val(ib) < spec_digits_val(ia));
        assert(spec_digits_val(ib) * pk + pk <= spec_digits_val(ia) * pk) by (nonlinear_arith)
            requires
                spec_digits_val(ib) < spec_digits_val(ia),
                pk >= 1,
        ;
    } else {
        lemma_cmp_digits_values(ia, ib);
        let c = spec_cmp_digits(ia, ib);
        if c == -1 {
            assert(spec_digits_val(ia) * pk + pk <= spec_digits_val(ib) * pk) by (nonlinear_arith)
                requires
                    spec_digits_val(ia) < spec_digits_val(ib),
                    pk >= 1,
            ;
        } else if c == 1 {
            assert(spec_digits_val(ib) * pk + pk <= spec_digits_val(ia) * pk) by (nonlinear_arith)
                requires
                    spec_digits_val(ib) < spec_digits_val(ia),
                    pk >= 1,
            ;
        } else {
            lemma_cmp_frac_values(fa, fb, k);
        }
    }
}

proof fn lemma_pow10_le(a: nat, b: nat)
    requires
        a <= b,
    ensures
        spec_pow10(a) <= spec_pow10(b),
    decreases b,
{
    if a < b {
        lemma_pow10_le(a, (b - 1) as nat);
        lemma_pow10_pos((b - 1) as nat);
    }
}

/// Range facts used in the bound arguments: comparing runs of digits.
proof fn lemma_cmp_digits_range(a: Seq<char>, b: Seq<char>)
    ensures
        -1 <= spec_cmp_digits(a, b) <= 1,
    decreases a.len(),
{
    if a.len() > 0 && b.len() > 0 && a[0] == b[0] {
        lemma_cmp_digits_range(a.skip(1), b.skip(1));
    }
}

proof fn lemma_cmp_frac_range(a: Seq<char>, b: Seq<char>)
    ensures
        -1 <= spec_cmp_frac(a, b) <= 1,
    decreases a.len() + b.len(),
{
    if a.len() > 0 && b.len() > 0 && a[0] == b[0] {
        lemma_cmp_frac_range(a.skip(1), b.skip(1));
    }
}

/// The structural ordering `spec_numeral_cmp` orders two numeral texts
/// exactly as their numeric values order, both scaled to any width that
/// holds both fraction runs.
pub proof fn lemma_numeral_cmp_orders_values(a: Seq<char>, b: Seq<char>, k: nat)
    requires
        spec_is_numeral(a),
        spec_is_numeral(b),
        spec_numeral_parts(a)->Some_0.2.len() <= k,
        spec_numeral_parts(b)->Some_0.2.len() <= k,
    ensures
        ({
            let va = spec_numeral_scaled(spec_numeral_parts(a)->Some_0, k);
            let vb = spec_numeral_scaled(spec_numeral_parts(b)->Some_0, k);
            &&& (spec_numeral_cmp(a, b) == -1 <==> va < vb)
            &&& (spec_numeral_cmp(a, b) == 0 <==> va == vb)
            &&& (spec_numeral_cmp(a, b) == 1 <==> va > vb)
        }),
{
    let pa = spec_numeral_parts(a)->Some_0;
    let pb = spec_numeral_parts(b)->Some_0;
    let ia = spec_strip_leading_zeros(pa.1);
    let fa = spec_strip_trailing_zeros(pa.2);
    let ib = spec_strip_leading_zeros(pb.1);
    let fb = spec_strip_trailing_zeros(pb.2);
    lemma_strip_leading_props(pa.1);
    lemma_strip_leading_props(pb.1);
    lemma_strip_trailing_scaled(pa.2, k);
    lemma_strip_trailing_scaled(pb.2, k);
    let ma = spec_digits_val(ia) * spec_pow10(k) + spec_scaled_frac(fa, k);
    let mb = spec_digits_val(ib) * spec_pow10(k) + spec_scaled_frac(fb, k);
    assert(ma == spec_digits_val(pa.1) * spec_pow10(k) + spec_scaled_frac(pa.2, k));
    assert(mb == spec_digits_val(pb.1) * spec_pow10(k) + spec_scaled_frac(pb.2, k));
    lemma_pow10_pos(k);
    lemma_frac_upper(fa, k);
    lemma_frac_upper(fb, k);
    lemma_digits_val_nonneg(ia);
    lemma_digits_val_nonneg(ib);
    let za = ia.len() == 0 && fa.len() == 0;
    let zb = ib.len() == 0 && fb.len() == 0;
    if ia.len() == 0 {
        assert(spec_digits_val(ia) * spec_pow10(k) == 0) by (nonlinear_arith)
            requires
                spec_digits_val(ia) == 0,
        ;
    } else {
        lemma_digits_val_lower(ia);
        lemma_pow10_pos((ia.len() - 1) as nat);
        assert(spec_digits_val(ia) * spec_pow10(k) >= spec_pow10(k)) by (nonlinear_arith)
            requires
                spec_digits_val(ia) >= 1,
                spec_pow10(k) >= 1,
        ;
    }
    if ib.len() == 0 {
        assert(spec_digits_val(ib) * spec_pow10(k) == 0) by (nonlinear_arith)
            requires
                spec_digits_val(ib) == 0,
        ;
    } else {
        lemma_digits_val_lower(ib);
        lemma_pow10_pos((ib.len() - 1) as nat);
        assert(spec_digits_val(ib) * spec_pow10(k) >= spec_pow10(k)) by (nonlinear_arith)
            requires
                spec_digits_val(ib) >= 1,
                spec_pow10(k) >= 1,
        ;
    }
    if fa.len() > 0 {
        lemma_frac_pos(fa, k);
    }
    if fb.len() > 0 {
        lemma_frac_pos(fb, k);
    }
    if za && zb {
    } else if za {
        assert(ma == 0);
        assert(mb >= 1);
    } else if zb {
        assert(mb == 0);
        assert(ma >= 1);
    } else {
        assert(ma >= 1);
        assert(mb >= 1);
        if pa.0 == pb.0 {
            lemma_cmp_digits_range(ia, ib);
            lemma_cmp_frac_range(fa, fb);
            lemma_cmp_magnitude_values(ia, fa, ib, fb, k);
        }
    }
}


/// A run of digits holds no decimal point.
proof fn lemma_dot_index_digits(x: Seq<char>)
    requires
        spec_all_digits(x),
    ensures
        spec_dot_index(x) == x.len(),
    decreases x.len(),
{
    if x.len() > 0 {
        assert(spec_is_digit(x[0]));
        assert('.' as u32 == 46);
        assert(x[0] != '.');
        assert(spec_all_digits(x.skip(1)));
        lemma_dot_index_digits(x.skip(1));
    }
}

/// The decimal point after a run of digits is the first one.
proof fn lemma_dot_index_concat(x: Seq<char>, y: Seq<char>)
    requires
        spec_all_digits(x),
    ensures
        spec_dot_index(x + seq!['.'] + y) == x.len(),
    decreases x.len(),
{
    let s = x + seq!['.'] + y;
    if x.len() == 0 {
        assert(s[0] == '.');
    } else {
        assert(spec_is_digit(x[0]));
        assert('.' as u32 == 46);
        assert(s[0] == x[0]);
        assert(s[0] != '.');
        assert(spec_all_digits(x.skip(1)));
        lemma_dot_index_concat(x.skip(1), y);
        assert(s.skip(1) =~= x.skip(1) + seq!['.'] + y);
    }
}

/// The canonical text of a numeral is itself a numeral and denotes the
/// same value: its parts, scaled to any width `k` that holds the original
/// fraction run, have the same signed value as the original's.
pub proof fn lemma_canon_same_value(s: Seq<char>, k: nat)
    requires
        spec_is_numeral(s),
        spec_numeral_parts(s)->Some_0.2.len() <= k,
    ensures
        spec_is_numeral(spec_canon_numeral(s)),
        spec_numeral_parts(spec_canon_numeral(s))->Some_0.2.len() <= k,
        spec_numeral_scaled(spec_numeral_parts(spec_canon_numeral(s))->Some_0, k)
            == spec_numeral_scaled(spec_numeral_parts(s)->Some_0, k),
{
    let p = spec_numeral_parts(s)->Some_0;
    let ci = spec_strip_leading_zeros(p.1);
    let cf = spec_strip_trailing_zeros(p.2);
    lemma_strip_leading_props(p.1);
    lemma_strip_trailing_scaled(p.2, k);
    let ipart: Seq<char> = if ci.len() == 0 {
        seq!['0']
    } else {
        ci
    };
    assert(spec_all_digits(ipart)) by {
        if ci.len() == 0 {
            assert(spec_is_digit('0'));
        }
    }
    assert(spec_digits_val(ipart) == spec_digits_val(p.1)) by {
        if ci.len() == 0 {
            assert(seq!['0'].drop_last() =~= Seq::<char>::empty());
            assert(seq!['0'].last() == '0');
            assert('0' as u32 == 48);
            assert(spec_digit_val('0') == 0);
            assert(spec_digits_val(Seq::<char>::empty()) == 0);
            assert(spec_digits_val(seq!['0']) == spec_digits_val(seq!['0'].drop_last()) * 10
                + spec_digit_val(seq!['0'].last()));
            assert(spec_digits_val(seq!['0']) == 0);
        }
    }
    let c = spec_canon_numeral(s);
    assert(ipart[0] != '-' && ipart[0] != '+') by {
        assert(spec_is_digit(ipart[0]));
        assert('-' as u32 == 45);
        assert('+' as u32 == 43);
    }
    if cf.len() == 0 {
        if p.0 && ci.len() > 0 {
            assert(c =~= seq!['-'] + ipart);
            assert(c[0] == '-');
            assert(c.skip(1) =~= ipart);
            lemma_dot_index_digits(ipart);
            let q = spec_numeral_parts(c)->Some_0;
            assert(ipart.take(ipart.len() as int) =~= ipart);
            assert(q == (true, ipart, Seq::<char>::empty()));
        } else {
            assert(c =~= ipart);
            lemma_dot_index_digits(ipart);
            let q = spec_numeral_parts(c)->Some_0;
            assert(ipart.take(ipart.len() as int) =~= ipart);
            assert(q == (false, ipart, Seq::<char>::empty()));
            // the value is zero exactly when the sign was dropped
            if p.0 {
                assert(ci.len() == 0);
                assert(spec_digits_val(p.1) == 0);
                assert(spec_scaled_frac(p.2, k) == spec_scaled_frac(cf, k));
                assert(spec_digits_val(Seq::<char>::empty()) == 0);
                assert(spec_scaled_frac(cf, k) == 0) by {
                    assert(0 * spec_pow10((k - cf.len()) as nat) == 0) by (nonlinear_arith);
                }
            }
        }
        assert(spec_digits_val(Seq::<char>::empty()) == 0);
        assert(spec_scaled_frac(Seq::<char>::empty(), k) == spec_scaled_frac(cf, k)) by {
            assert(cf.len() == 0);
            assert(Seq::<char>::empty() =~= cf);
        }
        assert(spec_digits_val(ipart) * spec_pow10(k) == spec_digits_val(p.1) * spec_pow10(k));
    } else {
        let core = ipart + seq!['.'] + cf;
        if p.0 {
            assert(c =~= seq!['-'] + core);
            assert(c[0] == '-');
            assert(c.skip(1) =~= core);
        } else {
            assert(c =~= core);
            assert(c[0] == ipart[0]);
        }
        lemma_dot_index_concat(ipart, cf);
        assert(core.take(ipart.len() as int) =~= ipart);
        assert(core.skip(ipart.len() as int + 1) =~= cf);
        let q = spec_numeral_parts(c)->Some_0;
        assert(q == (p.0, ipart, cf));
        assert(spec_digits_val(ipart) * spec_pow10(k) == spec_digits_val(p.1) * spec_pow10(k));
    }
}

} // verus!
