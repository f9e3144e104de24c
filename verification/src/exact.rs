//! Exact non-negative decimals of at most 38 digits, kept as a coefficient and
//! a power-of-ten scale, and their canonical text.
use vstd::prelude::*;
use crate::text::{all_digits, digits_value, find_char_in, int_digits, lemma_find_char, nat_digits, parse_digits, pow10, push_char, push_chars, to_chars, trim_bounds, trim_seq, format_u128};
use crate::decimal::{after_dot, all_ascii_digits, before_dot, lemma_pow10_mono};

verus! {

/// `coefficient / 10^scale`.
pub struct ExactDecimal {
    pub coefficient: i128,
    pub scale: u32,
}

/// `(c, s)` with trailing zero digits of the fraction removed.
pub open spec fn norm(c: int, s: nat) -> (int, nat)
    decreases s,
{
    if s > 0 && c % 10 == 0 {
        norm(c / 10, (s - 1) as nat)
    } else {
        (c, s)
    }
}

/// A plain decimal: surrounding whitespace is ignored, then one or more
/// digits, optionally a `.` and at most 18 fractional digits, 38 digits in
/// all; zero only when `allow_zero`.  The result is normalized.
pub open spec fn spec_parse_exact(s: Seq<char>, allow_zero: bool) -> Option<(int, nat)> {
    let t = trim_seq(s);
    let w = before_dot(t);
    let f = after_dot(t);
    let v = digits_value(w + f);
    if w.len() > 0 && all_digits(w) && all_digits(f) && f.len() <= 18 && w.len() + f.len() <= 38
        && v <= i128::MAX && (allow_zero || v != 0) {
        Some(norm(v, f.len()))
    } else {
        None
    }
}

/// `n` zero characters.
pub open spec fn zeros(n: nat) -> Seq<char> {
    Seq::new(n, |_i: int| '0')
}

/// Text of `c / 10^s`: the digits with a `.` before the last `s` of them,
/// and a `0.` and zero padding when there are no more than `s` digits.
pub open spec fn spec_canonical(c: int, s: nat) -> Seq<char> {
    if s == 0 {
        int_digits(c)
    } else {
        let d = nat_digits(c as nat);
        if d.len() <= s {
            seq!['0', '.'] + zeros((s - d.len()) as nat) + d
        } else {
            d.subrange(0, d.len() - s) + seq!['.'] + d.subrange(d.len() - s, d.len() as int)
        }
    }
}

/// The canonical text of what `s` parses to, if it parses.
pub open spec fn spec_canonical_exact(s: Seq<char>, allow_zero: bool) -> Option<Seq<char>> {
    match spec_parse_exact(s, allow_zero) {
        Some((c, k)) => Some(spec_canonical(c, k)),
        None => None,
    }
}

/// Sum of two decimals at the larger scale, when every intermediate value
/// fits in `i128`.
pub open spec fn spec_exact_add(c1: int, s1: nat, c2: int, s2: nat) -> Option<(int, nat)> {
    let sc: nat = if s1 >= s2 { s1 } else { s2 };
    let p1 = pow10((sc - s1) as nat);
    let p2 = pow10((sc - s2) as nat);
    if p1 <= i128::MAX && p2 <= i128::MAX && c1 * p1 <= i128::MAX && c2 * p2 <= i128::MAX
        && c1 * p1 + c2 * p2 <= i128::MAX {
        Some(norm(c1 * p1 + c2 * p2, sc))
    } else {
        None
    }
}

pub proof fn lemma_norm_nonneg(c: int, s: nat)
    requires
        c >= 0,
    ensures
        norm(c, s).0 >= 0,
        norm(c, s).0 <= c,
        norm(c, s).1 <= s,
    decreases s,
{
    if s > 0 && c % 10 == 0 {
        lemma_norm_nonneg(c / 10, (s - 1) as nat);
    }
}

/// `10^e` when it fits in `i128`.
fn checked_pow10(e: u32) -> (r: Option<i128>)
    ensures
        r == (if pow10(e as nat) <= i128::MAX { Some(pow10(e as nat) as i128) } else { None::<i128> }),
{
    let mut m: i128 = 1;
    let mut j: u32 = 0;
    while j < e
        invariant
            j <= e,
            m as int == pow10(j as nat),
            m >= 1,
        decreases e - j,
    {
        if m > i128::MAX / 10 {
            proof {
                assert(pow10((j + 1) as nat) == 10 * pow10(j as nat));
                lemma_pow10_mono((j + 1) as nat, e as nat);
            }
            return None;
        }
        m = m * 10;
        j = j + 1;
    }
    Some(m)
}

impl ExactDecimal {
    /// Coefficients are never negative.
    pub open spec fn wf(self) -> bool {
        self.coefficient >= 0
    }

    pub open spec fn pair(self) -> (int, nat) {
        (self.coefficient as int, self.scale as nat)
    }

    pub fn zero() -> (r: Self)
        ensures
            r.wf(),
            r.pair() == (0int, 0nat),
    {
        ExactDecimal { coefficient: 0, scale: 0 }
    }

    /// Drops trailing zero digits of the fraction.
    pub fn normalized(self) -> (r: Self)
        requires
            self.wf(),
        ensures
            r.wf(),
            r.pair() == norm(self.coefficient as int, self.scale as nat),
    {
        let mut c = self.coefficient;
        let mut s = self.scale;
        while s > 0 && c % 10 == 0
            invariant
                c >= 0,
                norm(c as int, s as nat) == norm(self.coefficient as int, self.scale as nat),
            decreases s,
        {
            c = c / 10;
            s = s - 1;
        }
        ExactDecimal { coefficient: c, scale: s }
    }

    /// A positive plain decimal (see `spec_parse_exact`).
    pub fn parse(value: &str) -> (r: Option<Self>)
        ensures
            r matches Some(d) ==> d.wf() && spec_parse_exact(value@, false) == Some(d.pair()),
            r is None ==> spec_parse_exact(value@, false) is None,
    {
        Self::parse_with_zero(value, false)
    }

    /// A plain decimal, zero allowed when `allow_zero` (see `spec_parse_exact`).
    pub fn parse_with_zero(value: &str, allow_zero: bool) -> (r: Option<Self>)
        ensures
            r matches Some(d) ==> d.wf() && spec_parse_exact(value@, allow_zero) == Some(d.pair()),
            r is None ==> spec_parse_exact(value@, allow_zero) is None,
    {
        let v = to_chars(value);
        let (lo, hi) = trim_bounds(&v);
        let ghost t = v@.subrange(lo as int, hi as int);
        let dot = find_char_in(&v, lo, hi, '.');
        proof {
            lemma_find_char(t, '.');
        }
        let (whi, flo, fhi) = match dot {
            None => (hi, hi, hi),
            Some(d) => (lo + d, lo + d + 1, hi),
        };
        assert(v@.subrange(lo as int, whi as int) =~= before_dot(t));
        assert(v@.subrange(flo as int, fhi as int) =~= after_dot(t));
        if whi == lo || !all_ascii_digits(&v, lo, whi) || !all_ascii_digits(&v, flo, fhi) {
            return None;
        }
        if fhi - flo > 18 || (whi - lo) + (fhi - flo) > 38 {
            return None;
        }
        let mut d: Vec<char> = Vec::new();
        let mut i = lo;
        while i < whi
            invariant
                lo <= i <= whi <= v.len(),
                d@ == v@.subrange(lo as int, i as int),
            decreases whi - i,
        {
            d.push(v[i]);
            assert(v@.subrange(lo as int, i + 1) =~= v@.subrange(lo as int, i as int).push(v@[i as int]));
            i = i + 1;
        }
        let mut k = flo;
        while k < fhi
            invariant
                flo <= k <= fhi <= v.len(),
                d@ == v@.subrange(lo as int, whi as int) + v@.subrange(flo as int, k as int),
            decreases fhi - k,
        {
            d.push(v[k]);
            assert(v@.subrange(flo as int, k + 1) =~= v@.subrange(flo as int, k as int).push(v@[k as int]));
            k = k + 1;
        }
        let ghost all = before_dot(t) + after_dot(t);
        assert(d@ =~= all);
        assert(all_digits(all)) by {
            assert forall|j: int| 0 <= j < all.len() implies crate::text::is_digit(#[trigger] all[j]) by {
                if j < before_dot(t).len() {
                    assert(all[j] == before_dot(t)[j]);
                } else {
                    assert(all[j] == after_dot(t)[j - before_dot(t).len()]);
                }
            }
        }
        assert(d@.subrange(0, d.len() as int) =~= all);
        proof {
            crate::text::lemma_digits_value_nonneg(all);
        }
        let x = match parse_digits(&d, 0, d.len(), 0x7fff_ffff_ffff_ffff_ffff_ffff_ffff_ffff) {
            Some(x) => x,
            None => return None,
        };
        assert(x as int == digits_value(all));
        assert(x as int <= i128::MAX);
        if x == 0 && !allow_zero {
            return None;
        }
        let raw = ExactDecimal { coefficient: x as i128, scale: (fhi - flo) as u32 };
        Some(raw.normalized())
    }

    /// Exact sum, `None` when an intermediate value leaves `i128`.
    pub fn checked_add(&self, other: &Self) -> (r: Option<Self>)
        requires
            self.wf(),
            other.wf(),
        ensures
            r matches Some(d) ==> d.wf() && Some(d.pair()) == spec_exact_add(
                self.coefficient as int, self.scale as nat, other.coefficient as int, other.scale as nat),
            r is None ==> spec_exact_add(
                self.coefficient as int, self.scale as nat, other.coefficient as int, other.scale as nat) is None,
    {
        let scale = if self.scale >= other.scale { self.scale } else { other.scale };
        let p1 = match checked_pow10(scale - self.scale) {
            Some(p) => p,
            None => return None,
        };
        let p2 = match checked_pow10(scale - other.scale) {
            Some(p) => p,
            None => return None,
        };
        let left = match self.coefficient.checked_mul(p1) {
            Some(l) => l,
            None => return None,
        };
        let right = match other.coefficient.checked_mul(p2) {
            Some(r) => r,
            None => return None,
        };
        proof {
            assert(left >= 0 && right >= 0) by (nonlinear_arith)
                requires left == self.coefficient * p1, right == other.coefficient * p2,
                    self.coefficient >= 0, other.coefficient >= 0, p1 >= 0, p2 >= 0;
        }
        let sum = match left.checked_add(right) {
            Some(s) => s,
            None => return None,
        };
        Some(ExactDecimal { coefficient: sum, scale }.normalized())
    }

    /// The canonical text (see `spec_canonical`).
    pub fn canonical(&self) -> (r: String)
        requires
            self.wf(),
        ensures
            r@ == spec_canonical(self.coefficient as int, self.scale as nat),
    {
        let digits = format_u128(self.coefficient as u128);
        if self.scale == 0 {
            assert(digits@ == int_digits(self.coefficient as int));
            return digits;
        }
        let dv = to_chars(digits.as_str());
        let n = dv.len();
        let sc = self.scale as usize;
        let mut out = String::new();
        if n <= sc {
            push_char(&mut out, '0');
            push_char(&mut out, '.');
            let mut z: usize = 0;
            while z < sc - n
                invariant
                    n <= sc,
                    z <= sc - n,
                    out@ == seq!['0', '.'] + zeros(z as nat),
                decreases sc - n - z,
            {
                push_char(&mut out, '0');
                assert(zeros((z + 1) as nat) =~= zeros(z as nat).push('0'));
                assert(seq!['0', '.'] + zeros((z + 1) as nat) =~= (seq!['0', '.'] + zeros(z as nat)).push('0'));
                z = z + 1;
            }
            push_chars(&mut out, &dv, 0, n);
            assert(dv@.subrange(0, n as int) =~= dv@);
        } else {
            let split = n - sc;
            push_chars(&mut out, &dv, 0, split);
            push_char(&mut out, '.');
            push_chars(&mut out, &dv, split, n);
        }
        out
    }
}

/// The canonical text of a plain decimal, zero allowed when `allow_zero`.
pub fn canonical_exact_decimal(value: &str, allow_zero: bool) -> (r: Option<String>)
    ensures
        r matches Some(s) ==> spec_canonical_exact(value@, allow_zero) == Some(s@),
        r is None ==> spec_canonical_exact(value@, allow_zero) is None,
{
    match ExactDecimal::parse_with_zero(value, allow_zero) {
        Some(d) => Some(d.canonical()),
        None => None,
    }
}

} // verus!
