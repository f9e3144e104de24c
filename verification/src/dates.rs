//! Calendar dates written `YYYY-MM-DD` and ISO currency codes.
use vstd::prelude::*;
use crate::text::{all_digits, digits_value, is_ascii_digit, is_digit, parse_digits, to_chars};

verus! {

pub open spec fn is_leap_year(year: int) -> bool {
    year % 4 == 0 && (year % 100 != 0 || year % 400 == 0)
}

/// Number of days of `month` in `year`; zero when the month does not exist.
pub open spec fn days_in_month(year: int, month: int) -> int {
    if month == 2 {
        if is_leap_year(year) { 29 } else { 28 }
    } else if month == 4 || month == 6 || month == 9 || month == 11 {
        30
    } else if 1 <= month <= 12 {
        31
    } else {
        0
    }
}

/// `s` is `YYYY-MM-DD`: ten characters, dashes at positions 4 and 7, digits
/// elsewhere, naming a day that exists in the Gregorian calendar.
pub open spec fn spec_valid_date(s: Seq<char>) -> bool {
    &&& s.len() == 10
    &&& s[4] == '-'
    &&& s[7] == '-'
    &&& forall|i: int| 0 <= i < 10 && i != 4 && i != 7 ==> is_digit(#[trigger] s[i])
    &&& 1 <= digits_value(s.subrange(8, 10))
    &&& digits_value(s.subrange(8, 10)) <= days_in_month(
        digits_value(s.subrange(0, 4)),
        digits_value(s.subrange(5, 7)),
    )
}

/// `s` is a three-letter upper-case currency code.
pub open spec fn spec_valid_currency(s: Seq<char>) -> bool {
    s.len() == 3 && forall|i: int| 0 <= i < 3 ==> 'A' <= #[trigger] s[i] && s[i] <= 'Z'
}

pub fn days_in_month_exec(year: u32, month: u32) -> (r: u32)
    ensures
        r as int == days_in_month(year as int, month as int),
{
    let leap = year % 4 == 0 && (year % 100 != 0 || year % 400 == 0);
    if month == 2 {
        if leap { 29 } else { 28 }
    } else if month == 4 || month == 6 || month == 9 || month == 11 {
        30
    } else if month >= 1 && month <= 12 {
        31
    } else {
        0
    }
}

/// Whether `v` is a real calendar date written `YYYY-MM-DD`.
pub fn valid_date(v: &str) -> (r: bool)
    ensures
        r == spec_valid_date(v@),
{
    let c = to_chars(v);
    if c.len() != 10 || c[4] != '-' || c[7] != '-' {
        return false;
    }
    let mut i: usize = 0;
    while i < 10
        invariant
            c@ == v@,
            c.len() == 10,
            i <= 10,
            forall|j: int| 0 <= j < i && j != 4 && j != 7 ==> is_digit(#[trigger] c@[j]),
        decreases 10 - i,
    {
        if i != 4 && i != 7 && !is_ascii_digit(c[i]) {
            return false;
        }
        i = i + 1;
    }
    proof {
        let s = v@;
        assert(all_digits(s.subrange(0, 4)));
        assert(all_digits(s.subrange(5, 7)));
        assert(all_digits(s.subrange(8, 10)));
        assert(c@.subrange(0, 4) == s.subrange(0, 4));
    }
    let year = match parse_digits(&c, 0, 4, 9999) { Some(y) => y as u32, None => 0 };
    let month = match parse_digits(&c, 5, 7, 99) { Some(m) => m as u32, None => 0 };
    let day = match parse_digits(&c, 8, 10, 99) { Some(d) => d as u32, None => 0 };
    proof {
        crate::decimal::lemma_digits_bound(v@.subrange(0, 4));
        crate::decimal::lemma_digits_bound(v@.subrange(5, 7));
        crate::decimal::lemma_digits_bound(v@.subrange(8, 10));
        reveal_with_fuel(crate::text::pow10, 5);
    }
    day >= 1 && day <= days_in_month_exec(year, month)
}

/// Whether `v` is a three-letter upper-case currency code.
pub fn valid_currency(v: &str) -> (r: bool)
    ensures
        r == spec_valid_currency(v@),
{
    let c = to_chars(v);
    c.len() == 3 && c[0] >= 'A' && c[0] <= 'Z' && c[1] >= 'A' && c[1] <= 'Z' && c[2] >= 'A'
        && c[2] <= 'Z'
}

} // verus!
