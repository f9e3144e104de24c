//! Provider investment documents: the vocabulary of provider events and
//! their review, and the exact parsing of the amounts, decimals and dates
//! that statements print.
use vstd::prelude::*;
use crate::exact::{canonical_exact_decimal, spec_canonical_exact};
use crate::ids::{ascii_lower, hex_of, text_sha256, to_ascii_lowercase, push_hex};

use crate::text::{all_digits, digits_value, parse_digits, push_char, push_chars, std_parse_signed, str_eq, to_chars, trim_bounds, trim_seq, lemma_digits_value_nonneg};

verus! {

/// `s` without its leading `+` and `-` characters.
pub open spec fn skip_signs(s: Seq<char>) -> Seq<char>
    decreases s.len(),
{
    if s.len() > 0 && (s[0] == '+' || s[0] == '-') { skip_signs(s.drop_first()) } else { s }
}

/// `s` without its leading `$` characters.
pub open spec fn skip_dollars(s: Seq<char>) -> Seq<char>
    decreases s.len(),
{
    if s.len() > 0 && s[0] == '$' { skip_dollars(s.drop_first()) } else { s }
}

/// Index of the last `c` in `s`, or `-1`.
pub open spec fn rfind_char(s: Seq<char>, c: char) -> int
    decreases s.len(),
{
    if s.len() == 0 {
        -1
    } else if s.last() == c {
        s.len() - 1
    } else {
        rfind_char(s.drop_last(), c)
    }
}

/// `s` without its `.` and `,` characters.
pub open spec fn without_separators(s: Seq<char>) -> Seq<char> {
    s.filter(|c: char| c != '.' && c != ',')
}

/// Integer part and fraction of a printed amount: the last separator is the
/// decimal one when both `.` and `,` appear; a lone separator is decimal only
/// with exactly two digits after it; otherwise there is no fraction.
pub open spec fn money_parts(raw: Seq<char>) -> (Seq<char>, Seq<char>) {
    let dot = rfind_char(raw, '.');
    let comma = rfind_char(raw, ',');
    let n = raw.len() as int;
    if dot >= 0 && comma >= 0 && dot > comma {
        (raw.subrange(0, dot), raw.subrange(dot + 1, n))
    } else if dot >= 0 && comma >= 0 {
        (raw.subrange(0, comma), raw.subrange(comma + 1, n))
    } else if dot >= 0 && n - dot - 1 == 2 {
        (raw.subrange(0, dot), raw.subrange(dot + 1, n))
    } else if comma >= 0 && n - comma - 1 == 2 {
        (raw.subrange(0, comma), raw.subrange(comma + 1, n))
    } else {
        (raw, seq!['0', '0'])
    }
}

/// Cents of a fraction of at most two characters.
pub open spec fn money_cents(fraction: Seq<char>) -> Option<int> {
    if fraction.len() == 0 {
        Some(0)
    } else if fraction.len() == 1 {
        match std_parse_signed(fraction, i64::MIN as int, i64::MAX as int) {
            Some(d) => if i64::MIN <= d * 10 <= i64::MAX { Some(d * 10) } else { None },
            None => None,
        }
    } else if fraction.len() == 2 {
        std_parse_signed(fraction, i64::MIN as int, i64::MAX as int)
    } else {
        None
    }
}

/// Minor units of a printed amount before its sign is applied.
pub open spec fn money_magnitude(s: Seq<char>) -> Option<int> {
    let raw = skip_dollars(skip_signs(trim_seq(s)));
    let (whole, fraction) = money_parts(raw);
    match (std_parse_signed(without_separators(whole), i64::MIN as int, i64::MAX as int), money_cents(fraction)) {
        (Some(u), Some(c)) => if i64::MIN <= u * 100 <= i64::MAX && i64::MIN <= u * 100 + c <= i64::MAX {
            Some(u * 100 + c)
        } else {
            None
        },
        _ => None,
    }
}

/// The amount is written negative: it starts with `-` once trimmed.
pub open spec fn money_negative(s: Seq<char>) -> bool {
    let t = trim_seq(s);
    t.len() > 0 && t[0] == '-'
}

/// Exact minor units of a printed amount such as `-$1.234,56` or
/// `2,000,000.00`: surrounding whitespace, leading signs and `$` are dropped,
/// the thousands separators of the integer part are ignored, and the amount
/// is negated when it started with `-`.
pub open spec fn spec_money(s: Seq<char>) -> Option<int> {
    match money_magnitude(s) {
        Some(v) => Some(if money_negative(s) { -v } else { v }),
        None => None,
    }
}

/// Parses `v[lo..hi]` as the standard library parses an `i64`.
pub fn parse_i64(v: &Vec<char>, lo: usize, hi: usize) -> (r: Option<i64>)
    requires
        lo <= hi <= v.len(),
    ensures
        match r {
            Some(x) => std_parse_signed(v@.subrange(lo as int, hi as int), i64::MIN as int, i64::MAX as int) == Some(x as int),
            None => std_parse_signed(v@.subrange(lo as int, hi as int), i64::MIN as int, i64::MAX as int) is None,
        },
{
    let ghost s = v@.subrange(lo as int, hi as int);
    if lo == hi {
        return None;
    }
    let negative = v[lo] == '-';
    let start = if v[lo] == '+' || v[lo] == '-' { lo + 1 } else { lo };
    assert(s[0] == v@[lo as int]);
    assert(v@.subrange(start as int, hi as int) =~= (if s[0] == '+' || s[0] == '-' { s.drop_first() } else { s }));
    let max: u128 = if negative { 9_223_372_036_854_775_808 } else { 9_223_372_036_854_775_807 };
    match parse_digits(v, start, hi, max) {
        Some(x) => {
            proof {
                let body = v@.subrange(start as int, hi as int);
                lemma_digits_value_nonneg(body);
                assert(x as int == digits_value(body));
            }
            if negative {
                if x == 9_223_372_036_854_775_808 {
                    Some(i64::MIN)
                } else {
                    assert(x <= 9_223_372_036_854_775_807);
                    let xi = x as i64;
                    assert(xi as int == x as int);
                    Some(-xi)
                }
            } else {
                assert(x <= 9_223_372_036_854_775_807);
                let xi = x as i64;
                assert(xi as int == x as int);
                Some(xi)
            }
        },
        None => {
            proof {
                let body = v@.subrange(start as int, hi as int);
                if body.len() > 0 && all_digits(body) {
                    lemma_digits_value_nonneg(body);
                }
            }
            None
        },
    }
}

/// Whether a printed amount is negative, and its minor units before the
/// sign is applied.
fn money_split(s: &str) -> (r: (bool, Option<i64>))
    ensures
        r.0 == money_negative(s@),
        match r.1 {
            Some(x) => money_magnitude(s@) == Some(x as int),
            None => money_magnitude(s@) is None,
        },
{
    let v = to_chars(s);
    let (lo, hi) = trim_bounds(&v);
    let ghost t = v@.subrange(lo as int, hi as int);
    let negative = lo < hi && v[lo] == '-';
    assert(negative == money_negative(s@)) by {
        if lo < hi {
            assert(t[0] == v@[lo as int]);
        }
    }
    let mut i = lo;
    while i < hi && (v[i] == '+' || v[i] == '-')
        invariant
            lo <= i <= hi <= v.len(),
            skip_signs(v@.subrange(i as int, hi as int)) == skip_signs(t),
        decreases hi - i,
    {
        assert(v@.subrange(i as int, hi as int).drop_first() =~= v@.subrange(i + 1, hi as int));
        i = i + 1;
    }
    assert(skip_signs(v@.subrange(i as int, hi as int)) == v@.subrange(i as int, hi as int)) by {
        if i < hi {
            assert(v@.subrange(i as int, hi as int)[0] == v@[i as int]);
        }
    }
    let ghost signed = skip_signs(t);
    while i < hi && v[i] == '$'
        invariant
            lo <= i <= hi <= v.len(),
            skip_dollars(v@.subrange(i as int, hi as int)) == skip_dollars(signed),
        decreases hi - i,
    {
        assert(v@.subrange(i as int, hi as int).drop_first() =~= v@.subrange(i + 1, hi as int));
        i = i + 1;
    }
    assert(skip_dollars(v@.subrange(i as int, hi as int)) == v@.subrange(i as int, hi as int)) by {
        if i < hi {
            assert(v@.subrange(i as int, hi as int)[0] == v@[i as int]);
        }
    }
    let ghost raw = v@.subrange(i as int, hi as int);
    assert(raw == skip_dollars(skip_signs(trim_seq(s@))));
    let dot = rfind_in(&v, i, hi, '.');
    let comma = rfind_in(&v, i, hi, ',');
    let n = hi - i;
    let (wlo, whi, flo, fhi, default_fraction) = match (dot, comma) {
        (Some(d), Some(c)) => if d > c { (i, i + d, i + d + 1, hi, false) } else { (i, i + c, i + c + 1, hi, false) },
        (Some(d), None) => if n - d - 1 == 2 { (i, i + d, i + d + 1, hi, false) } else { (i, hi, hi, hi, true) },
        (None, Some(c)) => if n - c - 1 == 2 { (i, i + c, i + c + 1, hi, false) } else { (i, hi, hi, hi, true) },
        (None, None) => (i, hi, hi, hi, true),
    };
    let ghost parts = money_parts(raw);
    assert(v@.subrange(wlo as int, whi as int) =~= parts.0);
    assert(!default_fraction ==> v@.subrange(flo as int, fhi as int) =~= parts.1);
    let mut clean: Vec<char> = Vec::new();
    let mut k = wlo;
    while k < whi
        invariant
            wlo <= k <= whi <= v.len(),
            clean@ == without_separators(v@.subrange(wlo as int, k as int)),
        decreases whi - k,
    {
        proof {
            let a = v@.subrange(wlo as int, k as int);
            assert(v@.subrange(wlo as int, k + 1) =~= a.push(v@[k as int]));
            reveal_with_fuel(Seq::<_>::filter, 1);
            assert(a.push(v@[k as int]).drop_last() =~= a);
        }
        if v[k] != '.' && v[k] != ',' {
            clean.push(v[k]);
        }
        k = k + 1;
    }
    let units = match parse_i64(&clean, 0, clean.len()) {
        Some(u) => u,
        None => {
            assert(clean@.subrange(0, clean@.len() as int) =~= clean@);
            return (negative, None);
        },
    };
    assert(clean@.subrange(0, clean@.len() as int) =~= clean@);
    let cents: i64 = if default_fraction {
        assert(parts.1 =~= seq!['0', '0']);
        let zeros = vec!['0', '0'];
        assert(zeros@ =~= seq!['0', '0']);
        match parse_i64(&zeros, 0, 2) {
            Some(c) => {
                assert(zeros@.subrange(0, 2) =~= zeros@);
                c
            },
            None => {
                assert(zeros@.subrange(0, 2) =~= zeros@);
                return (negative, None);
            },
        }
    } else if fhi - flo == 0 {
        0
    } else if fhi - flo == 1 {
        match parse_i64(&v, flo, fhi) {
            Some(d) => match d.checked_mul(10) {
                Some(c) => c,
                None => return (negative, None),
            },
            None => return (negative, None),
        }
    } else if fhi - flo == 2 {
        match parse_i64(&v, flo, fhi) {
            Some(c) => c,
            None => return (negative, None),
        }
    } else {
        return (negative, None);
    };
    assert(money_cents(parts.1) == Some(cents as int));
    let value = match units.checked_mul(100) {
        Some(x) => match x.checked_add(cents) {
            Some(y) => y,
            None => return (negative, None),
        },
        None => return (negative, None),
    };
    assert(money_magnitude(s@) == Some(value as int));
    (negative, Some(value))
}

/// Exact minor units of a printed amount (see `spec_money`).
pub fn money(s: &str) -> (r: Option<i64>)
    requires
        !(money_negative(s@) && money_magnitude(s@) == Some(i64::MIN as int)),
    ensures
        match r {
            Some(x) => spec_money(s@) == Some(x as int),
            None => spec_money(s@) is None,
        },
{
    let (negative, m) = money_split(s);
    match m {
        Some(v) => Some(if negative { -v } else { v }),
        None => None,
    }
}

/// `s` holds no `-`.
pub open spec fn minus_free(s: Seq<char>) -> bool {
    forall|j: int| 0 <= j < s.len() ==> s[j] != '-'
}

proof fn lemma_parse_minus_free(x: Seq<char>)
    requires
        minus_free(x),
    ensures
        std_parse_signed(x, i64::MIN as int, i64::MAX as int) matches Some(v) ==> v >= 0,
{
    if x.len() > 0 {
        assert(x[0] != '-');
        let body = if x[0] == '+' { x.drop_first() } else { x };
        if body.len() > 0 && all_digits(body) {
            lemma_digits_value_nonneg(body);
        }
    }
}

proof fn lemma_skip_dollars_minus_free(t: Seq<char>)
    requires
        minus_free(t),
    ensures
        minus_free(skip_dollars(t)),
    decreases t.len(),
{
    if t.len() > 0 && t[0] == '$' {
        assert forall|j: int| 0 <= j < t.drop_first().len() implies t.drop_first()[j] != '-' by {
            assert(t.drop_first()[j] == t[j + 1]);
        }
        lemma_skip_dollars_minus_free(t.drop_first());
    }
}

proof fn lemma_subrange_minus_free(t: Seq<char>, a: int, b: int)
    requires
        minus_free(t),
        0 <= a <= b <= t.len(),
    ensures
        minus_free(t.subrange(a, b)),
{
    assert forall|j: int| 0 <= j < b - a implies t.subrange(a, b)[j] != '-' by {
        assert(t.subrange(a, b)[j] == t[a + j]);
    }
}

/// An amount written without `-` has a non-negative magnitude.
pub proof fn lemma_minus_free_magnitude(s: Seq<char>)
    requires
        minus_free(skip_dollars(skip_signs(trim_seq(s)))),
    ensures
        money_magnitude(s) matches Some(m) ==> m >= 0,
{
    let raw = skip_dollars(skip_signs(trim_seq(s)));
    let (whole, fraction) = money_parts(raw);
    let dot = rfind_char(raw, '.');
    let comma = rfind_char(raw, ',');
    crate::documents::lemma_rfind_char(raw, '.');
    crate::documents::lemma_rfind_char(raw, ',');
    let n = raw.len() as int;
    if dot >= 0 && comma >= 0 && dot > comma {
        lemma_subrange_minus_free(raw, 0, dot);
        lemma_subrange_minus_free(raw, dot + 1, n);
    } else if dot >= 0 && comma >= 0 {
        lemma_subrange_minus_free(raw, 0, comma);
        lemma_subrange_minus_free(raw, comma + 1, n);
    } else if dot >= 0 && n - dot - 1 == 2 {
        lemma_subrange_minus_free(raw, 0, dot);
        lemma_subrange_minus_free(raw, dot + 1, n);
    } else if comma >= 0 && n - comma - 1 == 2 {
        lemma_subrange_minus_free(raw, 0, comma);
        lemma_subrange_minus_free(raw, comma + 1, n);
    } else {
        assert(minus_free(seq!['0', '0']));
    }
    assert(minus_free(whole) && minus_free(fraction));
    let digits = without_separators(whole);
    assert(minus_free(digits)) by {
        assert forall|j: int| 0 <= j < digits.len() implies digits[j] != '-' by {
            if digits[j] == '-' {
                assert(digits.contains('-'));
                whole.lemma_filter_contains_rev(|c: char| c != '.' && c != ',', '-');
            }
        }
    }
    lemma_parse_minus_free(digits);
    lemma_parse_minus_free(fraction);
}

/// The unsigned text of an amount: an optional leading `$`, then only ASCII
/// digits, `.` and `,`.
pub open spec fn plain_amount(s: Seq<char>) -> bool {
    &&& s.len() > 0
    &&& forall|i: int| 0 <= i < s.len() ==> (('0' <= #[trigger] s[i] <= '9') || s[i] == '.' || s[i] == ',' || (i == 0
        && s[i] == '$'))
}

/// A text none of whose ends is white space is its own trim.
proof fn lemma_trim_unpadded(t: Seq<char>)
    requires
        t.len() > 0,
        !crate::text::is_space(t[0]),
        !crate::text::is_space(t.last()),
    ensures
        trim_seq(t) == t,
{
}

/// A leading `-` negates an amount, and a leading `+` leaves it as it is:
/// for an unsigned amount text `s`, `-s` reads as minus what `s` reads as
/// (or fails as `s` does) and `+s` reads as `s`.
pub proof fn law_money_sign(s: Seq<char>)
    requires
        plain_amount(s),
    ensures
        spec_money(seq!['-'] + s) == (match spec_money(s) {
            Some(v) => Some(-v),
            None => None::<int>,
        }),
        spec_money(seq!['+'] + s) == spec_money(s),
        money_magnitude(s) matches Some(m) ==> m >= 0,
        !(money_negative(s) && money_magnitude(s) == Some(i64::MIN as int)),
        !(money_negative(seq!['-'] + s) && money_magnitude(seq!['-'] + s) == Some(i64::MIN as int)),
        !(money_negative(seq!['+'] + s) && money_magnitude(seq!['+'] + s) == Some(i64::MIN as int)),
{
    assert(!crate::text::is_space(s[0]));
    assert(!crate::text::is_space(s.last())) by {
        assert(s.last() == s[s.len() - 1]);
    }
    lemma_trim_unpadded(s);
    assert(skip_signs(s) == s);
    let minus = seq!['-'] + s;
    let plus = seq!['+'] + s;
    assert(minus.drop_first() =~= s);
    assert(plus.drop_first() =~= s);
    assert(minus.last() == s.last());
    assert(plus.last() == s.last());
    lemma_trim_unpadded(minus);
    lemma_trim_unpadded(plus);
    assert(skip_signs(minus) == skip_signs(s));
    assert(skip_signs(plus) == skip_signs(s));
    assert(money_magnitude(minus) == money_magnitude(s));
    assert(money_magnitude(plus) == money_magnitude(s));
    assert(money_negative(minus));
    assert(!money_negative(plus));
    assert(!money_negative(s));
    assert(minus_free(s)) by {
        assert forall|j: int| 0 <= j < s.len() implies s[j] != '-' by {
            assert(('0' <= s[j] <= '9') || s[j] == '.' || s[j] == ',' || (j == 0 && s[j] == '$'));
        }
    }
    lemma_skip_dollars_minus_free(s);
    lemma_minus_free_magnitude(s);
}

/// The amount a document row yields: `spec_money`, except that an amount
/// whose negation does not fit an `i64` is not read.
pub open spec fn row_money(s: Seq<char>) -> Option<int> {
    if money_negative(s) && money_magnitude(s) == Some(i64::MIN as int) {
        None
    } else {
        spec_money(s)
    }
}

/// The amount a document row yields (see `row_money`).
pub fn read_money(s: &str) -> (r: Option<i64>)
    ensures
        match r {
            Some(x) => row_money(s@) == Some(x as int),
            None => row_money(s@) is None,
        },
{
    let (negative, m) = money_split(s);
    match m {
        Some(v) => if negative && v == i64::MIN {
            None
        } else {
            Some(if negative { -v } else { v })
        },
        None => None,
    }
}


/// Index of the last `c` in `v[lo..hi]`, relative to `lo`.
pub fn rfind_in(v: &Vec<char>, lo: usize, hi: usize, c: char) -> (r: Option<usize>)
    requires
        lo <= hi <= v.len(),
    ensures
        match r {
            Some(k) => rfind_char(v@.subrange(lo as int, hi as int), c) == k as int && k < hi - lo,
            None => rfind_char(v@.subrange(lo as int, hi as int), c) == -1,
        },
{
    let mut j = hi;
    while j > lo
        invariant
            lo <= j <= hi <= v.len(),
            rfind_char(v@.subrange(lo as int, hi as int), c) == rfind_char(v@.subrange(lo as int, j as int), c),
        decreases j - lo,
    {
        let ghost p = v@.subrange(lo as int, j as int);
        assert(p.last() == v@[j - 1]);
        assert(p.drop_last() =~= v@.subrange(lo as int, j - 1));
        if v[j - 1] == c {
            return Some(j - 1 - lo);
        }
        j = j - 1;
    }
    None
}

/// Providers whose investment documents are understood.
#[derive(Debug, Clone, Copy, PartialEq, Eq, Structural)]
pub enum Provider {
    Nu,
    Wenia,
    Plenti,
}

pub open spec fn provider_name(p: Provider) -> Seq<char> {
    match p {
        Provider::Nu => "nu"@,
        Provider::Wenia => "wenia"@,
        Provider::Plenti => "plenti"@,
    }
}

impl Provider {
    /// The stored name of the provider.
    pub fn as_str(self) -> (r: &'static str)
        ensures
            r@ == provider_name(self),
    {
        match self {
            Provider::Nu => "nu",
            Provider::Wenia => "wenia",
            Provider::Plenti => "plenti",
        }
    }

    /// The provider a stored name denotes.
    pub fn parse(value: &str) -> (r: Option<Provider>)
        ensures
            r matches Some(p) ==> provider_name(p) == value@,
            r is None ==> forall|p: Provider| provider_name(p) != value@,
    {
        if str_eq(value, "nu") {
            Some(Provider::Nu)
        } else if str_eq(value, "wenia") {
            Some(Provider::Wenia)
        } else if str_eq(value, "plenti") {
            Some(Provider::Plenti)
        } else {
            proof {
                reveal_strlit("nu");
                reveal_strlit("wenia");
                reveal_strlit("plenti");
            }
            None
        }
    }
}

/// Kinds of provider events.
#[derive(Debug, Clone, Copy, PartialEq, Eq, Structural)]
pub enum EventType {
    Deposit,
    Withdrawal,
    CdtOpening,
    CdtReturn,
    ObservedCash,
    ObservedPosition,
}

pub open spec fn event_type_name(e: EventType) -> Seq<char> {
    match e {
        EventType::Deposit => "deposit"@,
        EventType::Withdrawal => "withdrawal"@,
        EventType::CdtOpening => "cdt_opening"@,
        EventType::CdtReturn => "cdt_return"@,
        EventType::ObservedCash => "observed_cash"@,
        EventType::ObservedPosition => "observed_position"@,
    }
}

impl EventType {
    pub fn as_str(self) -> (r: &'static str)
        ensures
            r@ == event_type_name(self),
    {
        match self {
            EventType::Deposit => "deposit",
            EventType::Withdrawal => "withdrawal",
            EventType::CdtOpening => "cdt_opening",
            EventType::CdtReturn => "cdt_return",
            EventType::ObservedCash => "observed_cash",
            EventType::ObservedPosition => "observed_position",
        }
    }

    pub fn parse(value: &str) -> (r: Option<EventType>)
        ensures
            r matches Some(e) ==> event_type_name(e) == value@,
            r is None ==> forall|e: EventType| event_type_name(e) != value@,
    {
        if str_eq(value, "deposit") {
            Some(EventType::Deposit)
        } else if str_eq(value, "withdrawal") {
            Some(EventType::Withdrawal)
        } else if str_eq(value, "cdt_opening") {
            Some(EventType::CdtOpening)
        } else if str_eq(value, "cdt_return") {
            Some(EventType::CdtReturn)
        } else if str_eq(value, "observed_cash") {
            Some(EventType::ObservedCash)
        } else if str_eq(value, "observed_position") {
            Some(EventType::ObservedPosition)
        } else {
            None
        }
    }
}

/// Where a provider event stands in review.
#[derive(Debug, Clone, Copy, PartialEq, Eq, Structural)]
pub enum ReviewStatus {
    PendingReview,
    Accepted,
    Rejected,
}

pub open spec fn review_status_name(s: ReviewStatus) -> Seq<char> {
    match s {
        ReviewStatus::PendingReview => "pending_review"@,
        ReviewStatus::Accepted => "accepted"@,
        ReviewStatus::Rejected => "rejected"@,
    }
}

impl ReviewStatus {
    pub fn as_str(self) -> (r: &'static str)
        ensures
            r@ == review_status_name(self),
    {
        match self {
            ReviewStatus::PendingReview => "pending_review",
            ReviewStatus::Accepted => "accepted",
            ReviewStatus::Rejected => "rejected",
        }
    }

    pub fn parse(value: &str) -> (r: Option<ReviewStatus>)
        ensures
            r matches Some(x) ==> review_status_name(x) == value@,
            r is None ==> forall|x: ReviewStatus| review_status_name(x) != value@,
    {
        if str_eq(value, "pending_review") {
            Some(ReviewStatus::PendingReview)
        } else if str_eq(value, "accepted") {
            Some(ReviewStatus::Accepted)
        } else if str_eq(value, "rejected") {
            Some(ReviewStatus::Rejected)
        } else {
            None
        }
    }
}

/// The decision taken on a provider event.
#[derive(Debug, Clone, Copy, PartialEq, Eq, Structural)]
pub enum ReviewDecision {
    ReconcileDeposit,
    ReconcileWithdrawal,
    AcceptSnapshot,
    EnrichCdtConstitution,
    EnrichCdtRenewal,
    EnrichCdtRedemption,
    Reject,
}

pub open spec fn review_decision_name(d: ReviewDecision) -> Seq<char> {
    match d {
        ReviewDecision::ReconcileDeposit => "reconcile_deposit"@,
        ReviewDecision::ReconcileWithdrawal => "reconcile_withdrawal"@,
        ReviewDecision::AcceptSnapshot => "accept_snapshot"@,
        ReviewDecision::EnrichCdtConstitution => "enrich_cdt_constitution"@,
        ReviewDecision::EnrichCdtRenewal => "enrich_cdt_renewal"@,
        ReviewDecision::EnrichCdtRedemption => "enrich_cdt_redemption"@,
        ReviewDecision::Reject => "reject"@,
    }
}

impl ReviewDecision {
    pub fn as_str(self) -> (r: &'static str)
        ensures
            r@ == review_decision_name(self),
    {
        match self {
            ReviewDecision::ReconcileDeposit => "reconcile_deposit",
            ReviewDecision::ReconcileWithdrawal => "reconcile_withdrawal",
            ReviewDecision::AcceptSnapshot => "accept_snapshot",
            ReviewDecision::EnrichCdtConstitution => "enrich_cdt_constitution",
            ReviewDecision::EnrichCdtRenewal => "enrich_cdt_renewal",
            ReviewDecision::EnrichCdtRedemption => "enrich_cdt_redemption",
            ReviewDecision::Reject => "reject",
        }
    }

    pub fn parse(value: &str) -> (r: Option<ReviewDecision>)
        ensures
            r matches Some(x) ==> review_decision_name(x) == value@,
            r is None ==> forall|x: ReviewDecision| review_decision_name(x) != value@,
    {
        if str_eq(value, "reconcile_deposit") {
            Some(ReviewDecision::ReconcileDeposit)
        } else if str_eq(value, "reconcile_withdrawal") {
            Some(ReviewDecision::ReconcileWithdrawal)
        } else if str_eq(value, "accept_snapshot") {
            Some(ReviewDecision::AcceptSnapshot)
        } else if str_eq(value, "enrich_cdt_constitution") {
            Some(ReviewDecision::EnrichCdtConstitution)
        } else if str_eq(value, "enrich_cdt_renewal") {
            Some(ReviewDecision::EnrichCdtRenewal)
        } else if str_eq(value, "enrich_cdt_redemption") {
            Some(ReviewDecision::EnrichCdtRedemption)
        } else if str_eq(value, "reject") {
            Some(ReviewDecision::Reject)
        } else {
            None
        }
    }
}

/// What a provider event is reconciled against.
#[derive(Debug, Clone, Copy, PartialEq, Eq, Structural)]
pub enum ReconciliationKind {
    Reconciliation,
    CanonicalTransaction,
    ProviderEvent,
    InvestmentSnapshot,
    CdtOperation,
}

pub open spec fn reconciliation_kind_name(k: ReconciliationKind) -> Seq<char> {
    match k {
        ReconciliationKind::Reconciliation => "reconciliation"@,
        ReconciliationKind::CanonicalTransaction => "canonical_transaction"@,
        ReconciliationKind::ProviderEvent => "provider_event"@,
        ReconciliationKind::InvestmentSnapshot => "investment_snapshot"@,
        ReconciliationKind::CdtOperation => "cdt_operation"@,
    }
}

impl ReconciliationKind {
    pub fn as_str(self) -> (r: &'static str)
        ensures
            r@ == reconciliation_kind_name(self),
    {
        match self {
            ReconciliationKind::Reconciliation => "reconciliation",
            ReconciliationKind::CanonicalTransaction => "canonical_transaction",
            ReconciliationKind::ProviderEvent => "provider_event",
            ReconciliationKind::InvestmentSnapshot => "investment_snapshot",
            ReconciliationKind::CdtOperation => "cdt_operation",
        }
    }

    pub fn parse(value: &str) -> (r: Option<ReconciliationKind>)
        ensures
            r matches Some(x) ==> reconciliation_kind_name(x) == value@,
            r is None ==> forall|x: ReconciliationKind| reconciliation_kind_name(x) != value@,
    {
        if str_eq(value, "reconciliation") {
            Some(ReconciliationKind::Reconciliation)
        } else if str_eq(value, "canonical_transaction") {
            Some(ReconciliationKind::CanonicalTransaction)
        } else if str_eq(value, "provider_event") {
            Some(ReconciliationKind::ProviderEvent)
        } else if str_eq(value, "investment_snapshot") {
            Some(ReconciliationKind::InvestmentSnapshot)
        } else if str_eq(value, "cdt_operation") {
            Some(ReconciliationKind::CdtOperation)
        } else {
            None
        }
    }
}

/// How a provider event matches the records it could reconcile with.
#[derive(Debug, Clone, Copy, PartialEq, Eq, Structural)]
pub enum MatchStatus {
    UniqueMatch,
    AmbiguousMatch,
    Unmatched,
    AlreadyReconciled,
    Incompatible,
}

/// Distinct providers have distinct stored names.
pub proof fn law_provider_names_distinct(a: Provider, b: Provider)
    ensures
        provider_name(a) == provider_name(b) <==> a == b,
{
    reveal_strlit("nu");
    reveal_strlit("wenia");
    reveal_strlit("plenti");
    if a != b {
        assert(provider_name(a).len() != provider_name(b).len() || provider_name(a)[0] != provider_name(b)[0]);
    }
}

/// Distinct event types have distinct stored names.
pub proof fn law_event_type_names_distinct(a: EventType, b: EventType)
    ensures
        event_type_name(a) == event_type_name(b) <==> a == b,
{
    reveal_strlit("deposit");
    reveal_strlit("withdrawal");
    reveal_strlit("cdt_opening");
    reveal_strlit("cdt_return");
    reveal_strlit("observed_cash");
    reveal_strlit("observed_position");
    if a != b {
        assert(event_type_name(a).len() != event_type_name(b).len() || event_type_name(a)[0] != event_type_name(b)[0]);
    }
}

/// Distinct review statuses have distinct stored names.
pub proof fn law_review_status_names_distinct(a: ReviewStatus, b: ReviewStatus)
    ensures
        review_status_name(a) == review_status_name(b) <==> a == b,
{
    reveal_strlit("pending_review");
    reveal_strlit("accepted");
    reveal_strlit("rejected");
    if a != b {
        assert(review_status_name(a).len() != review_status_name(b).len() || review_status_name(a)[0] != review_status_name(b)[0]);
    }
}

/// Distinct review decisions have distinct stored names.
pub proof fn law_review_decision_names_distinct(a: ReviewDecision, b: ReviewDecision)
    ensures
        review_decision_name(a) == review_decision_name(b) <==> a == b,
{
    reveal_strlit("reconcile_deposit");
    reveal_strlit("reconcile_withdrawal");
    reveal_strlit("accept_snapshot");
    reveal_strlit("enrich_cdt_constitution");
    reveal_strlit("enrich_cdt_renewal");
    reveal_strlit("enrich_cdt_redemption");
    reveal_strlit("reject");
    if a != b {
        assert(review_decision_name(a).len() != review_decision_name(b).len() || review_decision_name(a)[0] != review_decision_name(b)[0]);
    }
}

/// Distinct reconciliation kinds have distinct stored names.
pub proof fn law_reconciliation_kind_names_distinct(a: ReconciliationKind, b: ReconciliationKind)
    ensures
        reconciliation_kind_name(a) == reconciliation_kind_name(b) <==> a == b,
{
    reveal_strlit("reconciliation");
    reveal_strlit("canonical_transaction");
    reveal_strlit("provider_event");
    reveal_strlit("investment_snapshot");
    reveal_strlit("cdt_operation");
    if a != b {
        assert(reconciliation_kind_name(a).len() != reconciliation_kind_name(b).len() || reconciliation_kind_name(a)[0] != reconciliation_kind_name(b)[0]);
    }
}

/// A printed decimal in plain form: with a `,` present, `.` groups
/// thousands and `,` is the decimal point.
pub open spec fn plain_decimal(s: Seq<char>) -> Seq<char> {
    if s.contains(',') {
        s.filter(|c: char| c != '.').map_values(|c: char| if c == ',' { '.' } else { c })
    } else {
        s
    }
}

/// The canonical form of a printed positive decimal such as `10,2500`.
pub fn decimal(s: &str) -> (r: Option<String>)
    ensures
        match r {
            Some(x) => spec_canonical_exact(plain_decimal(s@), false) == Some(x@),
            None => spec_canonical_exact(plain_decimal(s@), false) is None,
        },
{
    let v = to_chars(s);
    assert(v@.subrange(0, v.len() as int) =~= s@);
    proof {
        crate::text::lemma_find_char(s@, ',');
    }
    let has_comma = crate::text::find_char_in(&v, 0, v.len(), ',').is_some();
    assert(has_comma == s@.contains(',')) by {
        if has_comma {
            let k = crate::text::find_char(s@, ',');
            assert(s@[k] == ',');
        }
    }
    if !has_comma {
        return canonical_exact_decimal(s, false);
    }
    let mut out = String::new();
    let mut k: usize = 0;
    while k < v.len()
        invariant
            v@ == s@,
            k <= v.len(),
            out@ == v@.subrange(0, k as int).filter(|c: char| c != '.').map_values(
                |c: char| if c == ',' { '.' } else { c },
            ),
        decreases v.len() - k,
    {
        proof {
            let a = v@.subrange(0, k as int);
            assert(v@.subrange(0, k + 1) =~= a.push(v@[k as int]));
            reveal_with_fuel(Seq::<_>::filter, 1);
            assert(a.push(v@[k as int]).drop_last() =~= a);
        }
        let c = v[k];
        if c != '.' {
            push_char(&mut out, if c == ',' { '.' } else { c });
            proof {
                let a = v@.subrange(0, k as int);
                let f = a.filter(|c: char| c != '.');
                assert(f.push(c).map_values(|c: char| if c == ',' { '.' } else { c }) =~= f.map_values(
                    |c: char| if c == ',' { '.' } else { c },
                ).push(if c == ',' { '.' } else { c }));
            }
        }
        k = k + 1;
    }
    canonical_exact_decimal(out.as_str(), false)
}

/// The parts of `s` between its `c` characters (`str::split`).
pub open spec fn split_on(s: Seq<char>, c: char) -> Seq<Seq<char>>
    decreases s.len(),
{
    let k = rfind_char(s, c);
    if k < 0 {
        seq![s]
    } else {
        proof {
            lemma_rfind_char(s, c);
        }
        split_on(s.subrange(0, k), c).push(s.subrange(k + 1, s.len() as int))
    }
}

pub proof fn lemma_rfind_char(s: Seq<char>, c: char)
    ensures
        -1 <= rfind_char(s, c) < s.len(),
        rfind_char(s, c) >= 0 ==> s[rfind_char(s, c)] == c,
        forall|j: int| rfind_char(s, c) < j < s.len() ==> s[j] != c,
    decreases s.len(),
{
    if s.len() > 0 && s.last() != c {
        lemma_rfind_char(s.drop_last(), c);
        assert forall|j: int| rfind_char(s, c) < j < s.len() implies s[j] != c by {
            if j < s.len() - 1 {
                assert(s[j] == s.drop_last()[j]);
            }
        }
    }
}

/// A `dd/mm/yyyy` date written `yyyy-mm-dd` (parts beyond the third are
/// ignored); `None` with fewer than three parts.
pub open spec fn spec_date_slash(s: Seq<char>) -> Option<Seq<char>> {
    let x = split_on(s, '/');
    if x.len() >= 3 { Some(x[2] + seq!['-'] + x[1] + seq!['-'] + x[0]) } else { None }
}

/// The parts of `v` between its `c` characters (`str::split`).
pub(crate) fn split_char(v: &Vec<char>, c: char) -> (r: Vec<Vec<char>>)
    ensures
        r@.len() == split_on(v@, c).len(),
        forall|i: int| 0 <= i < r@.len() ==> (#[trigger] r@[i])@ == split_on(v@, c)[i],
{
    let mut parts: Vec<Vec<char>> = Vec::new();
    let mut hi = v.len();
    let mut rev: Vec<Vec<char>> = Vec::new();
    assert(v@.subrange(0, v.len() as int) =~= v@);
    loop
        invariant_except_break
            hi <= v.len(),
            split_on(v@, c) == split_on(v@.subrange(0, hi as int), c) + Seq::new(rev@.len(), |i: int| rev@[rev@.len() - 1 - i]@),
        ensures
            split_on(v@, c) == Seq::new(rev@.len(), |i: int| rev@[rev@.len() - 1 - i]@),
        decreases hi,
    {
        let k = rfind_in(v, 0, hi, c);
        let ghost s = v@.subrange(0, hi as int);
        match k {
            None => {
                let mut first: Vec<char> = Vec::new();
                let mut j: usize = 0;
                while j < hi
                    invariant
                        j <= hi <= v.len(),
                        first@ == v@.subrange(0, j as int),
                    decreases hi - j,
                {
                    first.push(v[j]);
                    assert(v@.subrange(0, j + 1) =~= v@.subrange(0, j as int).push(v@[j as int]));
                    j = j + 1;
                }
                let ghost before = rev@;
                proof {
                    assert(split_on(s, c) == seq![s]);
                    assert(first@ =~= s);
                }
                rev.push(first);
                proof {
                    let tail_old = Seq::new(before.len(), |i: int| before[before.len() - 1 - i]@);
                    let tail_new = Seq::new(rev@.len(), |i: int| rev@[rev@.len() - 1 - i]@);
                    assert(tail_new =~= seq![s] + tail_old);
                }
                break;
            },
            Some(k) => {
                let mut part: Vec<char> = Vec::new();
                let mut j: usize = k + 1;
                while j < hi
                    invariant
                        k + 1 <= j <= hi <= v.len(),
                        part@ == v@.subrange(k + 1, j as int),
                    decreases hi - j,
                {
                    part.push(v[j]);
                    assert(v@.subrange(k + 1, j + 1) =~= v@.subrange(k + 1, j as int).push(v@[j as int]));
                    j = j + 1;
                }
                let ghost before = rev@;
                proof {
                    assert(s.subrange(0, k as int) =~= v@.subrange(0, k as int));
                    assert(s.subrange(k + 1, s.len() as int) =~= part@);
                    assert(split_on(s, c) == split_on(v@.subrange(0, k as int), c).push(part@));
                }
                rev.push(part);
                proof {
                    let tail_old = Seq::new(before.len(), |i: int| before[before.len() - 1 - i]@);
                    let tail_new = Seq::new(rev@.len(), |i: int| rev@[rev@.len() - 1 - i]@);
                    assert(tail_new =~= seq![part@] + tail_old);
                    assert(split_on(v@.subrange(0, k as int), c).push(part@) + tail_old
                        =~= split_on(v@.subrange(0, k as int), c) + tail_new);
                }
                hi = k;
            },
        }
    }
    let n = rev.len();
    let mut i: usize = 0;
    while i < n
        invariant
            i <= n == rev@.len(),
            parts@.len() == i,
            forall|q: int| 0 <= q < i ==> (#[trigger] parts@[q])@ == rev@[n - 1 - q]@,
        decreases n - i,
    {
        parts.push(rev[n - 1 - i].clone());
        i = i + 1;
    }
    parts
}

/// The parts of `v` between its `/` characters.
pub(crate) fn split_slash(v: &Vec<char>) -> (r: Vec<Vec<char>>)
    ensures
        r@.len() == split_on(v@, '/').len(),
        forall|i: int| 0 <= i < r@.len() ==> (#[trigger] r@[i])@ == split_on(v@, '/')[i],
{
    split_char(v, '/')
}

/// A `dd/mm/yyyy` date as `yyyy-mm-dd` (see `spec_date_slash`).
pub fn date_slash(s: &str) -> (r: Option<String>)
    ensures
        match r {
            Some(x) => spec_date_slash(s@) == Some(x@),
            None => spec_date_slash(s@) is None,
        },
{
    let v = to_chars(s);
    let x = split_slash(&v);
    if x.len() < 3 {
        return None;
    }
    let mut out = String::new();
    push_chars(&mut out, &x[2], 0, x[2].len());
    push_char(&mut out, '-');
    push_chars(&mut out, &x[1], 0, x[1].len());
    push_char(&mut out, '-');
    push_chars(&mut out, &x[0], 0, x[0].len());
    proof {
        assert(x@[2]@.subrange(0, x@[2]@.len() as int) =~= x@[2]@);
        assert(x@[1]@.subrange(0, x@[1]@.len() as int) =~= x@[1]@);
        assert(x@[0]@.subrange(0, x@[0]@.len() as int) =~= x@[0]@);
        assert(out@ =~= split_on(s@, '/')[2] + seq!['-'] + split_on(s@, '/')[1] + seq!['-'] + split_on(s@, '/')[0]);
    }
    Some(out)
}

/// Two-digit month of a Spanish month abbreviation, matched without regard
/// to case; anything else is December.
pub open spec fn spec_month(s: Seq<char>) -> Seq<char> {
    let l = ascii_lower(s);
    if l == "ene"@ { "01"@ } else if l == "feb"@ { "02"@ } else if l == "mar"@ { "03"@ } else if l == "abr"@ {
        "04"@
    } else if l == "may"@ { "05"@ } else if l == "jun"@ { "06"@ } else if l == "jul"@ { "07"@ } else if l
        == "ago"@ { "08"@ } else if l == "sep"@ { "09"@ } else if l == "oct"@ { "10"@ } else if l == "nov"@ {
        "11"@
    } else {
        "12"@
    }
}

/// Two-digit month of a Spanish month abbreviation (see `spec_month`).
pub fn month(s: &str) -> (r: &'static str)
    ensures
        r@ == spec_month(s@),
{
    let l = to_ascii_lowercase(s);
    let t = l.as_str();
    if str_eq(t, "ene") { "01" } else if str_eq(t, "feb") { "02" } else if str_eq(t, "mar") { "03" } else if str_eq(
        t,
        "abr",
    ) { "04" } else if str_eq(t, "may") { "05" } else if str_eq(t, "jun") { "06" } else if str_eq(t, "jul") {
        "07"
    } else if str_eq(t, "ago") { "08" } else if str_eq(t, "sep") { "09" } else if str_eq(t, "oct") { "10" } else if str_eq(
        t,
        "nov",
    ) { "11" } else { "12" }
}

/// Lower-case hex SHA-256 digest of `s`.
pub fn digest(s: &str) -> (r: String)
    ensures
        r@ == hex_of(text_sha256(s@)),
        r@.len() == 64,
{
    let hash = crate::ids::sha256_bytes(s);
    let mut out = String::new();
    push_hex(&mut out, &hash, hash.len());
    assert(hash@.subrange(0, hash@.len() as int) =~= hash@);
    assert(out@ =~= hex_of(text_sha256(s@)));
    proof {
        crate::ids::lemma_hex_of_len(hash@);
    }
    out
}

} // verus!
