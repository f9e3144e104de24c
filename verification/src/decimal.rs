//! Fixed-point quantities with nine fractional digits, as brokerage
//! positions store them.
use vstd::prelude::*;
use crate::text::{
    digit_char, digit_to_char, format_u128, lemma_digits_value_push, lemma_nat_digits_all_digits,
    magnitude_i128, nat_digits, push_char, push_chars, is_space, digit_value,
    all_digits, digits_value, find_char, find_char_in, fixed_digits, int_digits, is_ascii_digit,
    is_digit, lemma_digits_value_nonneg, lemma_find_char, parse_digits, pow10, strip_trailing_zeros,
    to_chars, trim_bounds, trim_seq,
};

verus! {

/// Quantities are stored as integers scaled by this factor.
pub const SCALE: i128 = 1_000_000_000;

/// Value of `whole.frac` scaled by `SCALE`, for at most nine fractional digits.
pub open spec fn fixed_point_value(whole: Seq<char>, frac: Seq<char>) -> int {
    digits_value(whole) * 1_000_000_000 + digits_value(frac) * pow10((9 - frac.len()) as nat)
}

/// The integer part of `t`: everything before its first `.`.
pub open spec fn before_dot(t: Seq<char>) -> Seq<char> {
    let dot = find_char(t, '.');
    if dot < 0 { t } else { t.subrange(0, dot) }
}

/// The fractional part of `t`: everything after its first `.` (empty when none).
pub open spec fn after_dot(t: Seq<char>) -> Seq<char> {
    let dot = find_char(t, '.');
    if dot < 0 { Seq::<char>::empty() } else { t.subrange(dot + 1, t.len() as int) }
}

/// A brokerage quantity: surrounding whitespace is ignored, then one or more
/// digits, optionally a `.` and one to nine digits; the scaled value must fit
/// in `i128`.
pub open spec fn spec_parse_decimal(s: Seq<char>) -> Option<int> {
    let t = trim_seq(s);
    let whole = before_dot(t);
    let frac = after_dot(t);
    if whole.len() > 0 && all_digits(whole) && (find_char(t, '.') < 0 || (0 < frac.len()
        <= 9 && all_digits(frac))) && fixed_point_value(whole, frac) <= i128::MAX {
        Some(fixed_point_value(whole, frac))
    } else {
        None
    }
}

/// A persisted report quantity: digits, optionally a `.` and at most nine
/// digits (possibly none); nothing is trimmed; the scaled value must fit in `i128`.
pub open spec fn spec_parse_report_quantity(s: Seq<char>) -> Option<int> {
    let whole = before_dot(s);
    let frac = after_dot(s);
    if frac.len() <= 9 && whole.len() > 0 && all_digits(whole) && all_digits(frac)
        && fixed_point_value(whole, frac) <= i128::MAX {
        Some(fixed_point_value(whole, frac))
    } else {
        None
    }
}

/// Integer part of `v / SCALE`, rounded toward zero.
pub open spec fn trunc_whole(v: int) -> int {
    if v < 0 { -((-v) / 1_000_000_000) } else { v / 1_000_000_000 }
}

/// Magnitude of the remainder of `v / SCALE`.
pub open spec fn trunc_frac(v: int) -> nat {
    (if v < 0 { (-v) % 1_000_000_000 } else { v % 1_000_000_000 }) as nat
}

/// Display form of a scaled quantity: the integer part, then, when the
/// remainder is not zero, a `.` and the nine fractional digits without
/// trailing zeros.
pub open spec fn spec_format_decimal(v: int) -> Seq<char> {
    if trunc_frac(v) == 0 {
        int_digits(trunc_whole(v))
    } else {
        int_digits(trunc_whole(v)) + seq!['.'] + strip_trailing_zeros(fixed_digits(trunc_frac(v), 9))
    }
}

/// Scaled value of the digits `v[wlo..whi]` and `v[flo..fhi]`.
fn fixed_point(v: &Vec<char>, wlo: usize, whi: usize, flo: usize, fhi: usize) -> (r: Option<i128>)
    requires
        wlo < whi <= v.len(),
        flo <= fhi <= v.len(),
        fhi - flo <= 9,
        all_digits(v@.subrange(wlo as int, whi as int)),
        all_digits(v@.subrange(flo as int, fhi as int)),
    ensures
        ({
            let val = fixed_point_value(v@.subrange(wlo as int, whi as int), v@.subrange(flo as int, fhi as int));
            &&& (r is Some <==> val <= i128::MAX)
            &&& (r matches Some(x) ==> x as int == val)
        }),
{
    let ghost whole = v@.subrange(wlo as int, whi as int);
    let ghost frac = v@.subrange(flo as int, fhi as int);
    proof {
        lemma_digits_value_nonneg(whole);
        lemma_digits_value_nonneg(frac);
        lemma_pow10_positive((9 - frac.len()) as nat);
    }
    let w = match parse_digits(v, wlo, whi, 0x7fff_ffff_ffff_ffff_ffff_ffff_ffff_ffff) {
        Some(w) => w,
        None => {
            proof {
                assert(digits_value(frac) * pow10((9 - frac.len()) as nat) >= 0) by (nonlinear_arith)
                    requires digits_value(frac) >= 0, pow10((9 - frac.len()) as nat) >= 1;
            }
            return None;
        },
    };
    let f: u128 = if flo == fhi {
        0
    } else {
        match parse_digits(v, flo, fhi, 999_999_999) {
            Some(f) => f,
            None => {
                proof { lemma_digits_bound(frac); }
                0
            },
        }
    };
    proof {
        if flo < fhi {
            lemma_digits_bound(frac);
        }
    }
    assert(f as int == digits_value(frac));
    let e: usize = 9 - (fhi - flo);
    let mut m: u128 = 1;
    let mut j: usize = 0;
    while j < e
        invariant
            j <= e <= 9,
            m as int == pow10(j as nat),
            m <= 1_000_000_000,
        decreases e - j,
    {
        proof {
            lemma_pow10_le_9((j + 1) as nat);
        }
        m = m * 10;
        j = j + 1;
    }
    proof {
        lemma_pow10_add(frac.len(), (9 - frac.len()) as nat);
        assert(pow10(9) == 1_000_000_000) by {
            lemma_pow10_le_9(9);
            reveal_with_fuel(pow10, 10);
        }
        assert(f * m < 1_000_000_000) by (nonlinear_arith)
            requires f < pow10(frac.len()), m == pow10((9 - frac.len()) as nat),
                pow10(frac.len()) * pow10((9 - frac.len()) as nat) == 1_000_000_000, f >= 0;
    }
    let scaled: i128 = (f * m) as i128;
    let wi = w as i128;
    let limit: i128 = (0x7fff_ffff_ffff_ffff_ffff_ffff_ffff_ffff - scaled) / 1_000_000_000;
    proof {
        let mx: int = 0x7fff_ffff_ffff_ffff_ffff_ffff_ffff_ffff;
        assert(limit * 1_000_000_000 <= mx - scaled && mx - scaled < (limit + 1) * 1_000_000_000) by (nonlinear_arith)
            requires limit == (mx - scaled) / 1_000_000_000, mx - scaled >= 0;
    }
    if wi > limit {
        proof {
            assert(wi * 1_000_000_000 >= (limit + 1) * 1_000_000_000) by (nonlinear_arith)
                requires wi > limit;
        }
        return None;
    }
    proof {
        assert(wi * 1_000_000_000 <= limit * 1_000_000_000) by (nonlinear_arith)
            requires wi <= limit;
    }
    Some(wi * 1_000_000_000 + scaled)
}

pub proof fn lemma_pow10_add(a: nat, b: nat)
    ensures
        pow10(a) * pow10(b) == pow10(a + b),
    decreases a,
{
    if a > 0 {
        lemma_pow10_add((a - 1) as nat, b);
        assert(pow10(a + b) == 10 * pow10(((a - 1) + b) as nat));
        assert(pow10(a) * pow10(b) == 10 * (pow10((a - 1) as nat) * pow10(b))) by (nonlinear_arith)
            requires pow10(a) == 10 * pow10((a - 1) as nat);
    } else {
        assert(pow10(a) == 1);
        assert(a + b == b);
    }
}

pub proof fn lemma_pow10_positive(n: nat)
    ensures
        pow10(n) >= 1,
    decreases n,
{
    if n > 0 {
        lemma_pow10_positive((n - 1) as nat);
    }
}

pub proof fn lemma_pow10_mono(a: nat, b: nat)
    requires
        a <= b,
    ensures
        pow10(a) <= pow10(b),
    decreases b,
{
    if a < b {
        lemma_pow10_mono(a, (b - 1) as nat);
        lemma_pow10_positive((b - 1) as nat);
    }
}

pub proof fn lemma_pow10_le_9(n: nat)
    requires
        n <= 9,
    ensures
        pow10(n) <= 1_000_000_000,
{
    lemma_pow10_mono(n, 9);
    reveal_with_fuel(pow10, 10);
    assert(pow10(9) == 1_000_000_000);
}

/// Fewer than ten digits write a number below `10^9`.
pub proof fn lemma_digits_bound(s: Seq<char>)
    requires
        all_digits(s),
        s.len() <= 9,
    ensures
        0 <= digits_value(s) < pow10(s.len()),
        pow10(s.len()) <= 1_000_000_000,
    decreases s.len(),
{
    lemma_pow10_le_9(s.len());
    if s.len() > 0 {
        let t = s.drop_last();
        assert(all_digits(t));
        lemma_digits_bound(t);
        assert(is_digit(s[s.len() - 1]));
        assert(pow10(s.len()) == 10 * pow10(t.len()));
    }
}

/// Parses a brokerage quantity into its scaled integer value.
pub fn parse_decimal(s: &str) -> (r: Option<i128>)
    ensures
        r matches Some(x) ==> spec_parse_decimal(s@) == Some(x as int),
        r is None ==> spec_parse_decimal(s@) is None,
{
    let v = to_chars(s);
    let (lo, hi) = trim_bounds(&v);
    let ghost t = v@.subrange(lo as int, hi as int);
    let dot = find_char_in(&v, lo, hi, '.');
    proof {
        lemma_find_char(t, '.');
    }
    let (whi, flo, fhi) = match dot {
        None => (hi, hi, hi),
        Some(d) => (lo + d, lo + d + 1, hi),
    };
    assert(v@.subrange(lo as int, whi as int) =~= before_dot(t));
    assert(v@.subrange(flo as int, fhi as int) =~= after_dot(t));
    if whi == lo || !all_ascii_digits(&v, lo, whi) {
        return None;
    }
    if dot.is_some() && (flo == fhi || fhi - flo > 9 || !all_ascii_digits(&v, flo, fhi)) {
        return None;
    }
    fixed_point(&v, lo, whi, flo, fhi)
}

/// Parses a persisted report quantity into its scaled integer value.
pub fn parse_report_quantity(s: &str) -> (r: Option<i128>)
    ensures
        r matches Some(x) ==> spec_parse_report_quantity(s@) == Some(x as int),
        r is None ==> spec_parse_report_quantity(s@) is None,
{
    let v = to_chars(s);
    let n = v.len();
    let dot = find_char_in(&v, 0, n, '.');
    assert(v@.subrange(0, n as int) =~= s@);
    proof {
        lemma_find_char(s@, '.');
    }
    let (whi, flo) = match dot {
        None => (n, n),
        Some(d) => (d, d + 1),
    };
    assert(v@.subrange(0, whi as int) =~= before_dot(s@));
    assert(v@.subrange(flo as int, n as int) =~= after_dot(s@));
    if n - flo > 9 || whi == 0 || !all_ascii_digits(&v, 0, whi) || !all_ascii_digits(&v, flo, n) {
        return None;
    }
    fixed_point(&v, 0, whi, flo, n)
}

/// Whether `v[lo..hi]` holds only ASCII digits.
pub fn all_ascii_digits(v: &Vec<char>, lo: usize, hi: usize) -> (r: bool)
    requires
        lo <= hi <= v.len(),
    ensures
        r == all_digits(v@.subrange(lo as int, hi as int)),
{
    let mut i = lo;
    while i < hi
        invariant
            lo <= i <= hi <= v.len(),
            all_digits(v@.subrange(lo as int, i as int)),
        decreases hi - i,
    {
        if !is_ascii_digit(v[i]) {
            assert(v@.subrange(lo as int, hi as int)[i - lo] == v@[i as int]);
            return false;
        }
        assert(v@.subrange(lo as int, i + 1) =~= v@.subrange(lo as int, i as int).push(v@[i as int]));
        i = i + 1;
    }
    true
}

/// Digits of `n % 10^width`, most significant first, zero-padded to `width`.
fn fixed_digits_vec(n: u128, width: usize) -> (r: Vec<char>)
    ensures
        r@ == fixed_digits(n as nat, width as nat),
    decreases width,
{
    if width == 0 {
        Vec::new()
    } else {
        let mut v = fixed_digits_vec(n / 10, width - 1);
        v.push(digit_to_char((n % 10) as u8));
        v
    }
}

/// Renders a scaled quantity: integer part, then the fractional digits without
/// trailing zeros when the fraction is not zero.
pub fn format_decimal(v: i128) -> (r: String)
    ensures
        r@ == spec_format_decimal(v as int),
{
    let a = magnitude_i128(v);
    let w = a / 1_000_000_000;
    let f = a % 1_000_000_000;
    let mut s = String::new();
    if v < 0 && w != 0 {
        push_char(&mut s, '-');
    }
    let digits = format_u128(w);
    let dv = crate::text::to_chars(digits.as_str());
    push_chars(&mut s, &dv, 0, dv.len());
    assert(dv@.subrange(0, dv@.len() as int) =~= nat_digits(w as nat));
    assert(s@ =~= int_digits(trunc_whole(v as int)));
    if f == 0 {
        return s;
    }
    push_char(&mut s, '.');
    let frac = fixed_digits_vec(f, 9);
    let mut k: usize = frac.len();
    assert(frac@.subrange(0, frac@.len() as int) =~= frac@);
    while k > 0 && frac[k - 1] == '0'
        invariant
            k <= frac.len(),
            strip_trailing_zeros(frac@.subrange(0, k as int)) == strip_trailing_zeros(frac@),
        decreases k,
    {
        assert(frac@.subrange(0, k as int).drop_last() =~= frac@.subrange(0, k - 1));
        k = k - 1;
    }
    proof {
        assert(frac@.subrange(0, frac@.len() as int) =~= frac@);
    }
    push_chars(&mut s, &frac, 0, k);
    proof {
        let t = frac@.subrange(0, k as int);
        assert(strip_trailing_zeros(t) == t);
        assert(trunc_frac(v as int) == f);
        assert(s@ =~= spec_format_decimal(v as int));
    }
    s
}

pub proof fn lemma_fixed_digits(n: nat, width: nat)
    ensures
        fixed_digits(n, width).len() == width,
        all_digits(fixed_digits(n, width)),
        digits_value(fixed_digits(n, width)) == n % pow10(width),
    decreases width,
{
    if width > 0 {
        let w1 = (width - 1) as nat;
        lemma_fixed_digits(n / 10, w1);
        let prev = fixed_digits(n / 10, w1);
        let d = n as int % 10;
        lemma_digits_value_push(prev, digit_char(d));
        assert(digit_char(d) as int == d + 48);
        let s = fixed_digits(n, width);
        assert forall|i: int| 0 <= i < s.len() implies crate::text::is_digit(#[trigger] s[i]) by {
            if i < s.len() - 1 {
                assert(s[i] == prev[i]);
            }
        }
        lemma_pow10_positive(w1);
        assert(pow10(width) == 10 * pow10(w1));
        vstd::arithmetic::div_mod::lemma_mod_breakdown(n as int, 10, pow10(w1) as int);
    } else {
        assert(pow10(0) == 1);
    }
}

pub proof fn lemma_strip_trailing_zeros(s: Seq<char>)
    requires
        all_digits(s),
    ensures
        all_digits(strip_trailing_zeros(s)),
        strip_trailing_zeros(s).len() <= s.len(),
        strip_trailing_zeros(s) == s.subrange(0, strip_trailing_zeros(s).len() as int),
        strip_trailing_zeros(s).len() > 0 ==> strip_trailing_zeros(s).last() != '0',
        digits_value(strip_trailing_zeros(s)) * pow10((s.len() - strip_trailing_zeros(s).len()) as nat)
            == digits_value(s),
        digits_value(s) != 0 ==> strip_trailing_zeros(s).len() > 0,
    decreases s.len(),
{
    if s.len() > 0 && s.last() == '0' {
        let t = s.drop_last();
        assert(all_digits(t));
        lemma_strip_trailing_zeros(t);
        let r = strip_trailing_zeros(t);
        assert(strip_trailing_zeros(s) == r);
        assert(digit_value(s.last()) == 0);
        assert(t.subrange(0, r.len() as int) =~= s.subrange(0, r.len() as int));
        assert(digits_value(s) == 10 * digits_value(t));
        let k = (t.len() - r.len()) as nat;
        assert(pow10(k + 1) == 10 * pow10(k));
        assert((s.len() - r.len()) as nat == k + 1);
        assert(digits_value(r) * pow10(k + 1) == 10 * (digits_value(r) * pow10(k))) by (nonlinear_arith)
            requires pow10(k + 1) == 10 * pow10(k);
        assert(digits_value(r) * pow10(k) == digits_value(t));
        assert(digits_value(strip_trailing_zeros(s)) * pow10((s.len() - strip_trailing_zeros(s).len()) as nat) == digits_value(s));
        if digits_value(s) != 0 {
            if r.len() == 0 {
                assert(digits_value(r) == 0);
            }
        }
    } else {
        assert(s.subrange(0, s.len() as int) =~= s);
        assert(pow10(0) == 1);
        assert(strip_trailing_zeros(s) == s);
        assert((s.len() - s.len()) as nat == 0);
    }
}

/// A sequence that neither starts nor ends with whitespace is its own trim.
pub proof fn lemma_trim_noop(s: Seq<char>)
    requires
        s.len() > 0,
        !is_space(s[0]),
        !is_space(s.last()),
    ensures
        trim_seq(s) == s,
{
}

/// Digits are never whitespace.
pub proof fn lemma_digit_not_space(c: char)
    requires
        crate::text::is_digit(c),
    ensures
        !is_space(c),
{
}

/// A rendered quantity is canonical: with no fraction it is the whole
/// number's digits alone, and a fraction never ends in `0`.
pub proof fn law_quantity_text_is_canonical(v: int)
    requires
        0 <= v <= i128::MAX,
    ensures
        trunc_frac(v) == 0 ==> spec_format_decimal(v) == int_digits(trunc_whole(v)),
        trunc_frac(v) != 0 ==> spec_format_decimal(v).last() != '0' && spec_format_decimal(v).last() != '.',
{
    let f = trunc_frac(v);
    if f != 0 {
        let fixed = fixed_digits(f as nat, 9);
        lemma_fixed_digits(f as nat, 9);
        lemma_strip_trailing_zeros(fixed);
        reveal_with_fuel(pow10, 10);
        assert(pow10(9) == 1_000_000_000);
        assert(0 < f < 1_000_000_000);
        assert(digits_value(fixed) == f % 1_000_000_000);
        assert(digits_value(fixed) == f);
        let stripped = strip_trailing_zeros(fixed);
        assert(stripped.len() > 0);
        let t = spec_format_decimal(v);
        assert(t == int_digits(trunc_whole(v)) + seq!['.'] + stripped);
        assert(t.last() == stripped.last());
        assert(crate::text::is_digit(stripped[stripped.len() - 1]));
    }
}

/// Rendering a non-negative quantity and parsing it back gives the same value.
pub proof fn law_quantity_roundtrip(v: int)
    requires
        0 <= v <= i128::MAX,
    ensures
        spec_parse_decimal(spec_format_decimal(v)) == Some(v),
{
    let w = (v / 1_000_000_000) as nat;
    let f = (v % 1_000_000_000) as nat;
    let d = nat_digits(w);
    lemma_nat_digits_all_digits(w);
    lemma_digit_not_space(d[0]);
    lemma_digit_not_space(d.last());
    assert(trunc_whole(v) == w);
    assert(trunc_frac(v) == f);
    assert(int_digits(w as int) == d);
    if f == 0 {
        let x = spec_format_decimal(v);
        assert(x == d);
        lemma_trim_noop(x);
        lemma_find_char(x, '.');
        if find_char(x, '.') >= 0 {
            assert(crate::text::is_digit(x[find_char(x, '.')]));
        }
        assert(before_dot(x) == d);
        assert(after_dot(x) =~= Seq::<char>::empty());
        assert(digits_value(Seq::<char>::empty()) == 0);
        assert(pow10(9) == 1_000_000_000) by {
            reveal_with_fuel(pow10, 10);
        }
        assert(v == w * 1_000_000_000);
    } else {
        let z9 = fixed_digits(f, 9);
        lemma_fixed_digits(f, 9);
        assert(pow10(9) == 1_000_000_000) by {
            reveal_with_fuel(pow10, 10);
        }
        let z = strip_trailing_zeros(z9);
        lemma_strip_trailing_zeros(z9);
        let x = d + seq!['.'] + z;
        assert(x == spec_format_decimal(v));
        assert(z.last() != '0');
        assert(crate::text::is_digit(z.last()));
        assert(x.last() == z.last());
        assert(x[0] == d[0]);
        lemma_digit_not_space(z.last());
        lemma_trim_noop(x);
        lemma_find_char(x, '.');
        let dot = find_char(x, '.');
        assert(x[d.len() as int] == '.');
        if dot == -1 {
            assert(x[d.len() as int] != '.');
        } else if dot < d.len() {
            assert(x[dot] == d[dot]);
            assert(crate::text::is_digit(d[dot]));
        } else if dot > d.len() {
            assert(x[d.len() as int] != '.');
        }
        assert(dot == d.len());
        assert(before_dot(x) =~= d);
        assert(after_dot(x) =~= z);
        assert(v == w * 1_000_000_000 + f);
    }
}

} // verus!
