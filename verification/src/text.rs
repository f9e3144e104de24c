use vstd::prelude::*;
use vstd::string::*;
use vstd::utf8::encode_utf8;

verus! {

/// An ASCII decimal digit.
pub open spec fn is_digit(c: char) -> bool {
    '0' <= c && c <= '9'
}

/// Numeric value of an ASCII decimal digit.
pub open spec fn digit_value(c: char) -> int {
    c as int - '0' as int
}

/// Every character of `s` is an ASCII decimal digit.
pub open spec fn all_digits(s: Seq<char>) -> bool {
    forall|i: int| 0 <= i < s.len() ==> is_digit(#[trigger] s[i])
}

/// The number written by the decimal digits `s` (most significant first).
pub open spec fn digits_value(s: Seq<char>) -> int
    decreases s.len(),
{
    if s.len() == 0 {
        0
    } else {
        10 * digits_value(s.drop_last()) + digit_value(s.last())
    }
}

/// The ASCII digit character for `d` in `0..10`.
pub open spec fn digit_char(d: int) -> char {
    (d + '0' as int) as char
}

/// Shortest decimal representation of a natural number.
pub open spec fn nat_digits(n: nat) -> Seq<char>
    decreases n,
{
    if n < 10 {
        seq![digit_char(n as int)]
    } else {
        nat_digits(n / 10).push(digit_char(n as int % 10))
    }
}

/// Decimal representation of an integer, with a leading `-` when negative.
pub open spec fn int_digits(n: int) -> Seq<char> {
    if n < 0 {
        seq!['-'] + nat_digits((-n) as nat)
    } else {
        nat_digits(n as nat)
    }
}

/// What the standard library's unsigned integer `parse` accepts: an optional
/// `+` and at least one decimal digit, the value not above `max`.
pub open spec fn std_parse_unsigned(s: Seq<char>, max: int) -> Option<int> {
    let body = if s.len() > 0 && s[0] == '+' { s.drop_first() } else { s };
    if body.len() > 0 && all_digits(body) && digits_value(body) <= max {
        Some(digits_value(body))
    } else {
        None
    }
}

/// What the standard library's signed integer `parse` accepts: an optional
/// sign and at least one decimal digit, the value within `min..=max`.
pub open spec fn std_parse_signed(s: Seq<char>, min: int, max: int) -> Option<int> {
    let negative = s.len() > 0 && s[0] == '-';
    let body = if s.len() > 0 && (s[0] == '+' || s[0] == '-') { s.drop_first() } else { s };
    if body.len() > 0 && all_digits(body) {
        let v = if negative { -digits_value(body) } else { digits_value(body) };
        if min <= v && v <= max { Some(v) } else { None }
    } else {
        None
    }
}

pub proof fn lemma_digits_value_push(s: Seq<char>, c: char)
    ensures
        digits_value(s.push(c)) == 10 * digits_value(s) + digit_value(c),
{
    assert(s.push(c).drop_last() =~= s);
}

pub proof fn lemma_digits_value_nonneg(s: Seq<char>)
    requires
        all_digits(s),
    ensures
        digits_value(s) >= 0,
    decreases s.len(),
{
    if s.len() > 0 {
        assert(all_digits(s.drop_last()));
        lemma_digits_value_nonneg(s.drop_last());
        assert(is_digit(s[s.len() - 1]));
    }
}

/// A longer run of digits never writes a smaller number.
pub proof fn lemma_digits_value_prefix_le(s: Seq<char>, k: int)
    requires
        all_digits(s),
        0 <= k <= s.len(),
    ensures
        digits_value(s.subrange(0, k)) <= digits_value(s),
    decreases s.len(),
{
    if k < s.len() {
        let t = s.drop_last();
        assert(all_digits(t));
        lemma_digits_value_prefix_le(t, k);
        assert(t.subrange(0, k) =~= s.subrange(0, k));
        lemma_digits_value_nonneg(t);
        assert(is_digit(s[s.len() - 1]));
    } else {
        assert(s.subrange(0, k) =~= s);
    }
}

pub proof fn lemma_digits_value_subrange_step(s: Seq<char>, lo: int, k: int)
    requires
        0 <= lo <= k < s.len(),
    ensures
        digits_value(s.subrange(lo, k + 1)) == 10 * digits_value(s.subrange(lo, k))
            + digit_value(s[k]),
{
    assert(s.subrange(lo, k + 1).drop_last() =~= s.subrange(lo, k));
}

pub proof fn lemma_nat_digits_all_digits(n: nat)
    ensures
        all_digits(nat_digits(n)),
        nat_digits(n).len() >= 1,
        digits_value(nat_digits(n)) == n,
    decreases n,
{
    let d = n as int % 10;
    assert(digit_char(d) as int == d + 48);
    if n < 10 {
        let one = seq![digit_char(n as int)];
        assert(one.drop_last() =~= Seq::<char>::empty());
        assert(digits_value(Seq::<char>::empty()) == 0);
        assert(digit_char(n as int) as int == n + 48);
        assert(digits_value(one) == 10 * digits_value(one.drop_last()) + digit_value(one.last()));
    } else {
        lemma_nat_digits_all_digits(n / 10);
        lemma_digits_value_push(nat_digits(n / 10), digit_char(n as int % 10));
        assert(digit_value(digit_char(d)) == d);
        assert(n == 10 * (n / 10) + d);
        let s = nat_digits(n);
        assert forall|i: int| 0 <= i < s.len() implies is_digit(#[trigger] s[i]) by {
            if i < s.len() - 1 {
                assert(s[i] == nat_digits(n / 10)[i]);
            }
        }
    }
}

pub fn is_ascii_digit(c: char) -> (r: bool)
    ensures
        r == is_digit(c),
{
    c >= '0' && c <= '9'
}

/// The characters of a string, one by one.
pub fn to_chars(s: &str) -> (r: Vec<char>)
    ensures
        r@ == s@,
{
    let n = s.unicode_len();
    let mut v: Vec<char> = Vec::new();
    let mut i: usize = 0;
    while i < n
        invariant
            n == s@.len(),
            i <= n,
            v@ == s@.subrange(0, i as int),
        decreases n - i,
    {
        v.push(s.get_char(i));
        i = i + 1;
    }
    assert(v@ =~= s@);
    v
}

/// Appends one character to a string (`String::push`).
#[verifier::external_body]
pub fn push_char(s: &mut String, c: char)
    ensures
        final(s)@ == old(s)@.push(c),
{
    s.push(c);
}

/// Appends the characters `v[lo..hi]` to `out`.
pub fn push_chars(out: &mut String, v: &Vec<char>, lo: usize, hi: usize)
    requires
        lo <= hi <= v.len(),
    ensures
        final(out)@ == old(out)@ + v@.subrange(lo as int, hi as int),
{
    let ghost start = out@;
    let mut i = lo;
    while i < hi
        invariant
            lo <= i <= hi,
            hi <= v.len(),
            out@ == start + v@.subrange(lo as int, i as int),
        decreases hi - i,
    {
        push_char(out, v[i]);
        assert(v@.subrange(lo as int, i + 1) =~= v@.subrange(lo as int, i as int).push(v@[i as int]));
        i = i + 1;
    }
}

/// A string holding the characters `v[lo..hi]`.
pub fn string_of(v: &Vec<char>, lo: usize, hi: usize) -> (r: String)
    requires
        lo <= hi <= v.len(),
    ensures
        r@ == v@.subrange(lo as int, hi as int),
{
    let mut s = String::new();
    push_chars(&mut s, v, lo, hi);
    assert(s@ =~= v@.subrange(lo as int, hi as int));
    s
}

/// Appends the characters of `t` to `out`.
pub fn push_str(out: &mut String, t: &str)
    ensures
        final(out)@ == old(out)@ + t@,
{
    let v = to_chars(t);
    push_chars(out, &v, 0, v.len());
    assert(v@.subrange(0, v@.len() as int) =~= t@);
}

pub fn str_eq(a: &str, b: &str) -> (r: bool)
    ensures
        r == (a@ == b@),
{
    let x = to_chars(a);
    let y = to_chars(b);
    chars_eq(&x, &y)
}

pub fn chars_eq(x: &Vec<char>, y: &Vec<char>) -> (r: bool)
    ensures
        r == (x@ == y@),
{
    if x.len() != y.len() {
        return false;
    }
    let mut i: usize = 0;
    while i < x.len()
        invariant
            x.len() == y.len(),
            i <= x.len(),
            forall|j: int| 0 <= j < i ==> x@[j] == y@[j],
        decreases x.len() - i,
    {
        if x[i] != y[i] {
            return false;
        }
        i = i + 1;
    }
    assert(x@ =~= y@);
    true
}

/// The value of the digits `v[lo..hi]` when all are digits, there is at least
/// one and the value is at most `max`.
pub fn parse_digits(v: &Vec<char>, lo: usize, hi: usize, max: u128) -> (r: Option<u128>)
    requires
        lo <= hi <= v.len(),
    ensures
        ({
            let s = v@.subrange(lo as int, hi as int);
            r == (if s.len() > 0 && all_digits(s) && digits_value(s) <= max {
                Some(digits_value(s) as u128)
            } else {
                None::<u128>
            })
        }),
{
    let ghost s = v@.subrange(lo as int, hi as int);
    if lo == hi {
        return None;
    }
    let mut i = lo;
    while i < hi
        invariant
            lo <= i <= hi <= v.len(),
            s == v@.subrange(lo as int, hi as int),
            all_digits(v@.subrange(lo as int, i as int)),
        decreases hi - i,
    {
        if !is_ascii_digit(v[i]) {
            assert(s[i - lo] == v@[i as int]);
            return None;
        }
        assert(v@.subrange(lo as int, i + 1) =~= v@.subrange(lo as int, i as int).push(v@[i as int]));
        i = i + 1;
    }
    assert(all_digits(s));
    let mut acc: u128 = 0;
    let mut k = lo;
    while k < hi
        invariant
            lo <= k <= hi <= v.len(),
            s == v@.subrange(lo as int, hi as int),
            all_digits(s),
            acc as int == digits_value(v@.subrange(lo as int, k as int)),
            acc <= max,
        decreases hi - k,
    {
        proof {
            lemma_digits_value_subrange_step(v@, lo as int, k as int);
            assert(s[k - lo] == v@[k as int]);
        }
        let d = (v[k] as u32 - '0' as u32) as u128;
        if d > max || acc > (max - d) / 10 {
            proof {
                assert(v@.subrange(lo as int, k + 1) =~= s.subrange(0, k + 1 - lo));
                lemma_digits_value_prefix_le(s, k + 1 - lo);
                assert(acc * 10 + d > max) by (nonlinear_arith)
                    requires d > max || acc > (max - d) / 10, acc >= 0, d >= 0;
            }
            return None;
        }
        proof {
            assert(acc * 10 + d <= max) by (nonlinear_arith)
                requires acc <= (max - d) / 10, d <= 9, acc <= max;
        }
        acc = acc * 10 + d;
        k = k + 1;
    }
    assert(v@.subrange(lo as int, hi as int) =~= s);
    Some(acc)
}

/// The digit character of `d` in `0..10`.
pub fn digit_to_char(d: u8) -> (c: char)
    requires
        d < 10,
    ensures
        c == digit_char(d as int),
        is_digit(c),
        digit_value(c) == d,
{
    (d + 48) as char
}

/// Decimal representation of a natural number.
pub fn format_u128(n: u128) -> (r: String)
    ensures
        r@ == nat_digits(n as nat),
    decreases n,
{
    if n < 10 {
        let mut s = String::new();
        push_char(&mut s, digit_to_char(n as u8));
        assert(s@ =~= nat_digits(n as nat));
        s
    } else {
        let mut s = format_u128(n / 10);
        push_char(&mut s, digit_to_char((n % 10) as u8));
        s
    }
}

/// Absolute value of a signed integer, without overflow.
pub fn magnitude_i128(n: i128) -> (r: u128)
    ensures
        r as int == (if n < 0 { -n } else { n as int }),
{
    if n < 0 {
        ((-(n + 1)) as u128) + 1
    } else {
        n as u128
    }
}

/// Decimal representation of a signed integer (`i128::to_string`).
pub fn format_i128(n: i128) -> (r: String)
    ensures
        r@ == int_digits(n as int),
{
    let m = magnitude_i128(n);
    let digits = format_u128(m);
    if n < 0 {
        let mut s = String::new();
        push_char(&mut s, '-');
        push_str(&mut s, digits.as_str());
        assert(s@ =~= int_digits(n as int));
        s
    } else {
        digits
    }
}

/// Decimal representation of a signed 64-bit integer (`i64::to_string`).
pub fn format_i64(n: i64) -> (r: String)
    ensures
        r@ == int_digits(n as int),
{
    format_i128(n as i128)
}

/// A character with the Unicode `White_Space` property (`char::is_whitespace`).
pub open spec fn is_space(c: char) -> bool {
    ('\u{9}' <= c && c <= '\u{d}') || c == ' ' || c == '\u{85}' || c == '\u{a0}'
        || c == '\u{1680}' || ('\u{2000}' <= c && c <= '\u{200a}') || c == '\u{2028}'
        || c == '\u{2029}' || c == '\u{202f}' || c == '\u{205f}' || c == '\u{3000}'
}

/// `s` without its leading and trailing whitespace (`str::trim`).
pub open spec fn trim_seq(s: Seq<char>) -> Seq<char>
    decreases s.len(),
{
    if s.len() > 0 && is_space(s[0]) {
        trim_seq(s.drop_first())
    } else if s.len() > 0 && is_space(s.last()) {
        trim_seq(s.drop_last())
    } else {
        s
    }
}

pub fn is_whitespace(c: char) -> (r: bool)
    ensures
        r == is_space(c),
{
    (c >= '\u{9}' && c <= '\u{d}') || c == ' ' || c == '\u{85}' || c == '\u{a0}'
        || c == '\u{1680}' || (c >= '\u{2000}' && c <= '\u{200a}') || c == '\u{2028}'
        || c == '\u{2029}' || c == '\u{202f}' || c == '\u{205f}' || c == '\u{3000}'
}

/// Bounds of `v` once leading and trailing whitespace is left out.
pub fn trim_bounds(v: &Vec<char>) -> (r: (usize, usize))
    ensures
        r.0 <= r.1 <= v.len(),
        v@.subrange(r.0 as int, r.1 as int) == trim_seq(v@),
{
    let mut lo: usize = 0;
    let mut hi: usize = v.len();
    assert(v@.subrange(0, v.len() as int) =~= v@);
    while lo < hi && is_whitespace(v[lo])
        invariant
            lo <= hi == v.len(),
            trim_seq(v@) == trim_seq(v@.subrange(lo as int, hi as int)),
        decreases hi - lo,
    {
        assert(v@.subrange(lo as int, hi as int).drop_first() =~= v@.subrange(lo + 1, hi as int));
        lo = lo + 1;
    }
    while hi > lo && is_whitespace(v[hi - 1])
        invariant
            lo <= hi <= v.len(),
            lo < hi ==> !is_space(v@[lo as int]),
            trim_seq(v@) == trim_seq(v@.subrange(lo as int, hi as int)),
        decreases hi - lo,
    {
        let ghost t = v@.subrange(lo as int, hi as int);
        assert(t[0] == v@[lo as int]);
        assert(t.last() == v@[hi - 1]);
        assert(t.drop_last() =~= v@.subrange(lo as int, hi - 1));
        hi = hi - 1;
    }
    let ghost t = v@.subrange(lo as int, hi as int);
    if lo < hi {
        assert(t[0] == v@[lo as int]);
        assert(t.last() == v@[hi - 1]);
    }
    (lo, hi)
}

/// `s` without leading and trailing whitespace, as an owned string (`str::trim`).
pub fn trimmed(s: &str) -> (r: String)
    ensures
        r@ == trim_seq(s@),
{
    let v = to_chars(s);
    let (lo, hi) = trim_bounds(&v);
    string_of(&v, lo, hi)
}

/// Index of the first `c` in `s`, or `-1` when there is none.
pub open spec fn find_char(s: Seq<char>, c: char) -> int
    decreases s.len(),
{
    if s.len() == 0 {
        -1
    } else if s[0] == c {
        0
    } else {
        let r = find_char(s.drop_first(), c);
        if r < 0 {
            -1
        } else {
            r + 1
        }
    }
}

pub proof fn lemma_find_char(s: Seq<char>, c: char)
    ensures
        -1 <= find_char(s, c) < s.len(),
        find_char(s, c) == -1 <==> (forall|j: int| 0 <= j < s.len() ==> s[j] != c),
        find_char(s, c) >= 0 ==> s[find_char(s, c)] == c,
        forall|j: int| 0 <= j < find_char(s, c) ==> s[j] != c,
    decreases s.len(),
{
    if s.len() > 0 && s[0] != c {
        let t = s.drop_first();
        lemma_find_char(t, c);
        assert forall|j: int| 1 <= j < s.len() implies s[j] == t[j - 1] by {}
        if find_char(t, c) == -1 {
            assert forall|j: int| 0 <= j < s.len() implies s[j] != c by {
                if j > 0 {
                    assert(s[j] == t[j - 1]);
                }
            }
        } else {
            assert forall|j: int| 0 <= j < find_char(s, c) implies s[j] != c by {
                if j > 0 {
                    assert(s[j] == t[j - 1]);
                }
            }
            assert(s[find_char(s, c)] == t[find_char(t, c)]);
        }
    }
}

/// Index of the first `c` in `v[lo..hi]`, relative to `lo`, or `-1`.
pub fn find_char_in(v: &Vec<char>, lo: usize, hi: usize, c: char) -> (r: Option<usize>)
    requires
        lo <= hi <= v.len(),
    ensures
        r is None <==> find_char(v@.subrange(lo as int, hi as int), c) == -1,
        r matches Some(k) ==> k as int == find_char(v@.subrange(lo as int, hi as int), c),
{
    let ghost s = v@.subrange(lo as int, hi as int);
    proof {
        lemma_find_char(s, c);
    }
    let mut i = lo;
    while i < hi
        invariant
            lo <= i <= hi <= v.len(),
            s == v@.subrange(lo as int, hi as int),
            forall|j: int| 0 <= j < i - lo ==> s[j] != c,
        decreases hi - i,
    {
        if v[i] == c {
            assert(s[i - lo] == c);
            let r = i - lo;
            proof {
                lemma_find_char(s, c);
                let f = find_char(s, c);
                if f == -1 {
                    assert(s[i - lo] != c);
                } else if f < i - lo {
                    assert(s[f] != c);
                } else if f > i - lo {
                    assert(s[i - lo] != c);
                }
            }
            return Some(r);
        }
        i = i + 1;
    }
    proof {
        lemma_find_char(s, c);
        if find_char(s, c) != -1 {
            assert(s[find_char(s, c)] != c);
        }
    }
    None
}

/// Removes trailing `0` characters.
pub open spec fn strip_trailing_zeros(s: Seq<char>) -> Seq<char>
    decreases s.len(),
{
    if s.len() > 0 && s.last() == '0' {
        strip_trailing_zeros(s.drop_last())
    } else {
        s
    }
}

/// The `width` lowest decimal digits of `n`, zero-padded (`{:0width$}` for small `n`).
pub open spec fn fixed_digits(n: nat, width: nat) -> Seq<char>
    decreases width,
{
    if width == 0 {
        Seq::<char>::empty()
    } else {
        fixed_digits(n / 10, (width - 1) as nat).push(digit_char(n as int % 10))
    }
}

pub open spec fn pow10(n: nat) -> nat
    decreases n,
{
    if n == 0 {
        1
    } else {
        10 * pow10((n - 1) as nat)
    }
}

/// Lexicographic order of character sequences (the order of `str`'s `<`).
pub open spec fn seq_lt(a: Seq<char>, b: Seq<char>) -> bool
    decreases a.len(),
{
    if a.len() == 0 {
        b.len() > 0
    } else if b.len() == 0 {
        false
    } else if a[0] != b[0] {
        a[0] < b[0]
    } else {
        seq_lt(a.drop_first(), b.drop_first())
    }
}

/// Whether `a` sorts strictly before `b`.
pub fn str_lt(a: &str, b: &str) -> (r: bool)
    ensures
        r == seq_lt(a@, b@),
{
    let x = to_chars(a);
    let y = to_chars(b);
    let mut i: usize = 0;
    assert(a@.subrange(0, a@.len() as int) =~= a@);
    assert(b@.subrange(0, b@.len() as int) =~= b@);
    while i < x.len() && i < y.len() && x[i] == y[i]
        invariant
            x@ == a@,
            y@ == b@,
            i <= x.len(),
            i <= y.len(),
            seq_lt(a@, b@) == seq_lt(a@.subrange(i as int, a@.len() as int), b@.subrange(i as int, b@.len() as int)),
        decreases x.len() - i,
    {
        let ghost sa = a@.subrange(i as int, a@.len() as int);
        let ghost sb = b@.subrange(i as int, b@.len() as int);
        assert(sa.drop_first() =~= a@.subrange(i + 1, a@.len() as int));
        assert(sb.drop_first() =~= b@.subrange(i + 1, b@.len() as int));
        assert(sa[0] == x@[i as int] && sb[0] == y@[i as int]);
        i = i + 1;
    }
    let ghost sa = a@.subrange(i as int, a@.len() as int);
    let ghost sb = b@.subrange(i as int, b@.len() as int);
    if i == x.len() {
        assert(sa.len() == 0);
        i < y.len()
    } else if i == y.len() {
        assert(sb.len() == 0);
        false
    } else {
        assert(sa[0] == x@[i as int] && sb[0] == y@[i as int]);
        x[i] < y[i]
    }
}

/// Whether `s` begins with `p` (`str::starts_with`).
pub fn has_prefix(s: &str, p: &str) -> (r: bool)
    ensures
        r == (s@.len() >= p@.len() && s@.subrange(0, p@.len() as int) == p@),
{
    let v = to_chars(s);
    let w = to_chars(p);
    if v.len() < w.len() {
        return false;
    }
    let mut k: usize = 0;
    while k < w.len()
        invariant
            k <= w.len() <= v.len(),
            v@ == s@,
            w@ == p@,
            forall|j: int| 0 <= j < k ==> v@[j] == w@[j],
        decreases w.len() - k,
    {
        if v[k] != w[k] {
            assert(s@.subrange(0, p@.len() as int)[k as int] != p@[k as int]);
            return false;
        }
        k = k + 1;
    }
    assert(s@.subrange(0, p@.len() as int) =~= p@);
    true
}

/// Filtering a sequence with one more element.
pub proof fn lemma_filter_push<T>(s: Seq<T>, x: T, keep: spec_fn(T) -> bool)
    ensures
        s.push(x).filter(keep) == (if keep(x) { s.filter(keep).push(x) } else { s.filter(keep) }),
{
    reveal_with_fuel(Seq::<_>::filter, 1);
    assert(s.push(x).drop_last() =~= s);
}

/// Bytes in the UTF-8 encoding of `c`.
pub open spec fn utf8_width(c: char) -> int {
    if (c as u32) <= 0x7F {
        1
    } else if (c as u32) <= 0x7FF {
        2
    } else if (c as u32) <= 0xFFFF {
        3
    } else {
        4
    }
}

/// Bytes in the UTF-8 encoding of `c` (`char::len_utf8`).
pub fn utf8_width_of(c: char) -> (r: usize)
    ensures
        r as int == utf8_width(c),
{
    let v = c as u32;
    if v <= 0x7F {
        1
    } else if v <= 0x7FF {
        2
    } else if v <= 0xFFFF {
        3
    } else {
        4
    }
}

/// A character's encoding has its width.
pub proof fn lemma_scalar_width(c: char)
    ensures
        vstd::utf8::encode_scalar(c as u32).len() == utf8_width(c),
{
    let v = c as u32;
    assert(v <= 0xD7FF || (0xE000 <= v && v <= 0x10FFFF));
}

/// Encoding one more character adds its width.
pub proof fn lemma_encode_push_len(a: Seq<char>, c: char)
    ensures
        encode_utf8(a.push(c)).len() == encode_utf8(a).len() + utf8_width(c),
    decreases a.len(),
{
    if a.len() == 0 {
        assert(a.push(c) =~= seq![c]);
        assert(seq![c].drop_first() =~= Seq::<char>::empty());
        lemma_scalar_width(c);
        assert(encode_utf8(seq![c]) == vstd::utf8::encode_scalar(c as u32) + encode_utf8(Seq::<char>::empty()));
    } else {
        assert(a.push(c)[0] == a[0]);
        assert(a.push(c).drop_first() =~= a.drop_first().push(c));
        lemma_encode_push_len(a.drop_first(), c);
    }
}

/// Longer prefixes encode to strictly more bytes.
pub proof fn lemma_encode_prefix_increasing(s: Seq<char>, j: int, k: int)
    requires
        0 <= j < k <= s.len(),
    ensures
        encode_utf8(s.take(j)).len() < encode_utf8(s.take(k)).len(),
    decreases k - j,
{
    assert(s.take(k) =~= s.take(k - 1).push(s[k - 1]));
    lemma_encode_push_len(s.take(k - 1), s[k - 1]);
    if j < k - 1 {
        lemma_encode_prefix_increasing(s, j, k - 1);
    }
}

/// `n` falls on a character boundary of `s`: some prefix of `s` encodes to
/// exactly `n` bytes.
pub open spec fn byte_boundary(s: Seq<char>, n: int) -> bool {
    exists|k: int| 0 <= k <= s.len() && #[trigger] encode_utf8(s.take(k)).len() == n
}

/// Whether `n` falls on a character boundary of `s` (`str::is_char_boundary`
/// for `n` up to the length, and false past it).
pub fn is_byte_boundary(s: &str, n: usize) -> (r: bool)
    ensures
        r == byte_boundary(s@, n as int),
{
    let v = to_chars(s);
    let mut total: u128 = 0;
    let mut i: usize = 0;
    assert(s@.take(0) =~= Seq::<char>::empty());
    while i < v.len() && total < n as u128
        invariant
            i <= v.len(),
            v@ == s@,
            total as int == encode_utf8(s@.take(i as int)).len(),
            forall|k: int| 0 <= k < i ==> encode_utf8(s@.take(k)).len() < n,
            total <= n + 4,
        decreases v.len() - i,
    {
        assert(s@.take(i + 1) =~= s@.take(i as int).push(v@[i as int]));
        proof {
            lemma_encode_push_len(s@.take(i as int), v@[i as int]);
            lemma_scalar_width(v@[i as int]);
        }
        total = total + utf8_width_of(v[i]) as u128;
        i = i + 1;
    }
    if total == n as u128 {
        assert(encode_utf8(s@.take(i as int)).len() == n);
        true
    } else {
        assert forall|k: int| 0 <= k <= s@.len() implies #[trigger] encode_utf8(s@.take(k)).len() != n by {
            if k > i {
                lemma_encode_prefix_increasing(s@, i as int, k);
            }
        }
        false
    }
}

/// The characters of `s` held by its first `n` bytes (what `&s[..n]`
/// gives when `n` is a character boundary).
pub open spec fn byte_prefix(s: Seq<char>, n: int) -> Seq<char> {
    s.take(choose|k: int| 0 <= k <= s.len() && #[trigger] encode_utf8(s.take(k)).len() == n)
}

/// The first `n` bytes of `s` (`&s[..n]`), on a character boundary.
pub fn prefix_bytes(s: &str, n: usize) -> (r: String)
    requires
        byte_boundary(s@, n as int),
    ensures
        r@ == byte_prefix(s@, n as int),
{
    let v = to_chars(s);
    let mut k: usize = 0;
    let mut bytes: u128 = 0;
    assert(s@.take(0) =~= Seq::<char>::empty());
    while k < v.len() && bytes < n as u128
        invariant
            k <= v.len(),
            v@ == s@,
            bytes as int == encode_utf8(s@.take(k as int)).len(),
            bytes <= n as u128 + 4,
            k > 0 ==> encode_utf8(s@.take(k - 1)).len() < n,
        decreases v.len() - k,
    {
        proof {
            assert(s@.take(k + 1) =~= s@.take(k as int).push(s@[k as int]));
            lemma_encode_push_len(s@.take(k as int), s@[k as int]);
        }
        bytes = bytes + utf8_width_of(v[k]) as u128;
        k = k + 1;
    }
    let ghost w = choose|j: int| 0 <= j <= s@.len() && #[trigger] encode_utf8(s@.take(j)).len() == n;
    proof {
        if w < k {
            if w < k - 1 {
                lemma_encode_prefix_increasing(s@, w, k - 1);
            }
        } else if w > k {
            lemma_encode_prefix_increasing(s@, k as int, w);
        }
        assert(w == k);
    }
    string_of(&v, 0, k)
}

} // verus!
