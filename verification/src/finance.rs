//! The finance dashboard: income, consumption expense, net cash flow and
//! investment contributions over a date range, by month, category and
//! account, for one currency and the selected accounts and categories.
use vstd::prelude::*;
use chrono::Datelike;
use crate::brokerage::in_i64;
use crate::cdt::opt_seq;
use crate::closing::negated;
use crate::ids::{ascii_upper, to_ascii_uppercase};
use crate::ordered::{kv, SortedMap};
use crate::replay::key_of;
use crate::review::owned;
use crate::text::{format_i64, int_digits, seq_lt, str_eq, str_lt};

verus! {

pub open spec fn dashboard_schema() -> Seq<char> {
    "tracky.dashboard.v1"@
}

/// Why a dashboard cannot be computed.
#[derive(Debug, Clone, Copy, PartialEq, Eq, Structural)]
pub enum FinanceError {
    InvalidDate,
    InvalidRange,
    DateRangeOverflow,
    AmountOverflow,
    UnavailableCurrency,
    InvalidLimit,
    InvalidCursor,
    UnreadableData,
}

/// The text a dashboard error is shown with.
pub open spec fn finance_error_text(e: FinanceError) -> Seq<char> {
    match e {
        FinanceError::InvalidDate => "dates must use YYYY-MM-DD"@,
        FinanceError::InvalidRange => "dashboard start date must not follow end date"@,
        FinanceError::DateRangeOverflow => "dashboard date range overflow"@,
        FinanceError::AmountOverflow => "dashboard amount overflow"@,
        FinanceError::UnavailableCurrency => "requested currency is not available in this date range"@,
        FinanceError::InvalidLimit => "dashboard drill-down limit must be between 1 and 100"@,
        FinanceError::InvalidCursor => "invalid dashboard cursor"@,
        FinanceError::UnreadableData => "dashboard data could not be read"@,
    }
}

impl FinanceError {
    /// The text the error is shown with (see `finance_error_text`).
    pub fn message(self) -> (r: &'static str)
        ensures
            r@ == finance_error_text(self),
    {
        match self {
            FinanceError::InvalidDate => "dates must use YYYY-MM-DD",
            FinanceError::InvalidRange => "dashboard start date must not follow end date",
            FinanceError::DateRangeOverflow => "dashboard date range overflow",
            FinanceError::AmountOverflow => "dashboard amount overflow",
            FinanceError::UnavailableCurrency => "requested currency is not available in this date range",
            FinanceError::InvalidLimit => "dashboard drill-down limit must be between 1 and 100",
            FinanceError::InvalidCursor => "invalid dashboard cursor",
            FinanceError::UnreadableData => "dashboard data could not be read",
        }
    }
}

// ---------------------------------------------------------------------
// Dates, through `chrono`.

/// Year, month and day of `text` read with the `chrono` pattern `%Y-%m-%d`.
pub uninterp spec fn chrono_ymd(text: Seq<char>) -> Option<(int, int, int)>;

/// The years `chrono` represents.
pub open spec fn chrono_year(y: int) -> bool {
    -262143 <= y <= 262142
}

/// Calls `chrono::NaiveDate::parse_from_str(text, "%Y-%m-%d")`.  Claimed:
/// the result is the parsed date's year, month and day, as named by
/// `chrono_ymd`: a date of the Gregorian calendar with a year in `chrono`'s
/// range; which strings parse is left to `chrono`.
#[verifier::external_body]
pub(crate) fn parse_ymd(text: &str) -> (r: Option<(i32, u32, u32)>)
    ensures
        r matches Some(t) ==> chrono_ymd(text@) == Some((t.0 as int, t.1 as int, t.2 as int)) && chrono_year(t.0 as int)
            && 1 <= t.1 <= 12 && 1 <= t.2 <= 31 && t.2 <= crate::dates::days_in_month(t.0 as int, t.1 as int),
        r is None ==> chrono_ymd(text@) is None,
{
    match chrono::NaiveDate::parse_from_str(text, "%Y-%m-%d") {
        Ok(d) => Some((d.year(), d.month(), d.day())),
        Err(_) => None,
    }
}

/// Calls `chrono::NaiveDate::checked_add_months` with one month on the
/// first day of month `month` of `year`.  Claimed: the result is the first
/// day of the next month, and it fails only past `chrono`'s last year.
#[verifier::external_body]
fn next_month(year: i32, month: u32) -> (r: Option<(i32, u32)>)
    requires
        1 <= month <= 12,
        chrono_year(year as int),
    ensures
        r is None <==> (year == 262142 && month == 12),
        r matches Some(n) ==> (if month < 12 { n.0 == year && n.1 == month + 1 } else { n.0 == year + 1 && n.1 == 1 }),
{
    let first = chrono::NaiveDate::from_ymd_opt(year, month, 1)?;
    let next = first.checked_add_months(chrono::Months::new(1))?;
    Some((next.year(), next.month()))
}

/// `n`'s decimal digits, left-padded with zeros to `width` characters.
pub open spec fn zero_padded(n: nat, width: nat) -> Seq<char> {
    let d = crate::text::nat_digits(n);
    if d.len() < width {
        Seq::new((width - d.len()) as nat, |_i: int| '0') + d
    } else {
        d
    }
}

/// How `chrono` writes a year (`%Y`, and `NaiveDate`'s `Display`): four
/// digits for the years 0 to 9999, otherwise a sign and at least four
/// digits.
pub open spec fn chrono_year_text(y: int) -> Seq<char> {
    if 0 <= y <= 9999 {
        zero_padded(y as nat, 4)
    } else if y > 9999 {
        seq!['+'] + zero_padded(y as nat, 4)
    } else {
        seq!['-'] + zero_padded((-y) as nat, 4)
    }
}

/// The `chrono` text of a month, pattern `%Y-%m`: the year, a dash and the
/// month in two digits.
pub open spec fn chrono_year_month(year: int, month: int) -> Seq<char> {
    chrono_year_text(year) + seq!['-'] + zero_padded(month as nat, 2)
}

/// Calls `chrono`'s `format("%Y-%m")` on the first day of a month.
/// Claimed, as the crate's `%Y` and `%m` writers do: the year as
/// `chrono_year_text` has it, a dash, and the month in two digits.
#[verifier::external_body]
fn format_year_month(year: i32, month: u32) -> (r: String)
    requires
        1 <= month <= 12,
        chrono_year(year as int),
    ensures
        r@ == chrono_year_month(year as int, month as int),
{
    match chrono::NaiveDate::from_ymd_opt(year, month, 1) {
        Some(d) => d.format("%Y-%m").to_string(),
        None => String::new(),
    }
}

pub open spec fn ymd_le(a: (int, int, int), b: (int, int, int)) -> bool {
    a.0 < b.0 || (a.0 == b.0 && (a.1 < b.1 || (a.1 == b.1 && a.2 <= b.2)))
}

/// The range is valid: both dates parse and the start does not follow the end.
pub open spec fn spec_valid_range(start: Seq<char>, end: Seq<char>) -> bool {
    chrono_ymd(start) is Some && chrono_ymd(end) is Some && ymd_le(chrono_ymd(start)->0, chrono_ymd(end)->0)
}

pub open spec fn range_error(start: Seq<char>, end: Seq<char>) -> FinanceError {
    if chrono_ymd(start) is None || chrono_ymd(end) is None { FinanceError::InvalidDate } else { FinanceError::InvalidRange }
}

/// Checks that both dates parse and the start does not follow the end.
pub fn validate_range(start: &str, end: &str) -> (r: Result<(), FinanceError>)
    ensures
        spec_valid_range(start@, end@) ==> r is Ok,
        !spec_valid_range(start@, end@) ==> r == Err::<(), FinanceError>(range_error(start@, end@)),
{
    let s = match parse_ymd(start) {
        Some(d) => d,
        None => return Err(FinanceError::InvalidDate),
    };
    let e = match parse_ymd(end) {
        Some(d) => d,
        None => return Err(FinanceError::InvalidDate),
    };
    if s.0 < e.0 || (s.0 == e.0 && (s.1 < e.1 || (s.1 == e.1 && s.2 <= e.2))) {
        Ok(())
    } else {
        Err(FinanceError::InvalidRange)
    }
}

/// The months from the start's month through the end, as `chrono` names
/// them; `None` when a date does not parse or the months leave `chrono`'s
/// range (where the claims of `next_month` stop).
pub open spec fn months_from(y: int, m: int, end: (int, int, int), fuel: nat) -> Seq<Seq<char>>
    decreases fuel,
{
    if fuel == 0 || !ymd_le((y, m, 1), end) {
        seq![]
    } else {
        seq![chrono_year_month(y, m)] + months_from(if m < 12 { y } else { y + 1 }, if m < 12 { m + 1 } else { 1 }, end, (fuel - 1) as nat)
    }
}

pub open spec fn month_count(y: int, m: int, end: (int, int, int)) -> nat {
    if ymd_le((y, m, 1), end) { ((end.0 * 12 + end.1) - (y * 12 + m) + 1) as nat } else { 0 }
}

/// The month names of the range, in order, when every month could be
/// stepped through.
pub open spec fn spec_months(start: Seq<char>, end: Seq<char>) -> Option<Seq<Seq<char>>> {
    match (chrono_ymd(start), chrono_ymd(end)) {
        (Some(s), Some(e)) => Some(months_from(s.0, s.1, e, month_count(s.0, s.1, e))),
        _ => None,
    }
}

proof fn lemma_months_step(y: int, m: int, end: (int, int, int))
    requires
        1 <= m <= 12,
        1 <= end.1 <= 12,
        1 <= end.2,
        ymd_le((y, m, 1), end),
    ensures
        month_count(y, m, end) >= 1,
        months_from(y, m, end, month_count(y, m, end)) == seq![chrono_year_month(y, m)]
            + months_from(if m < 12 { y } else { y + 1 }, if m < 12 { m + 1 } else { 1 }, end,
                month_count(if m < 12 { y } else { y + 1 }, if m < 12 { m + 1 } else { 1 }, end)),
{
    let ny = if m < 12 { y } else { y + 1 };
    let nm = if m < 12 { m + 1 } else { 1 };
    if ymd_le((ny, nm, 1), end) {
        assert(month_count(ny, nm, end) == (month_count(y, m, end) - 1) as nat);
    } else {
        assert(months_from(ny, nm, end, (month_count(y, m, end) - 1) as nat) =~= seq![]) by {
            if month_count(y, m, end) - 1 > 0 {
                assert(!ymd_le((ny, nm, 1), end));
            }
        }
        assert(month_count(ny, nm, end) == 0);
    }
}

/// The range reaches `chrono`'s last month, after which no month can be
/// stepped to.
pub open spec fn reaches_last_month(start: Seq<char>, end: Seq<char>) -> bool {
    chrono_ymd(start) is Some && chrono_ymd(end) is Some && {
        let s = chrono_ymd(start)->0;
        let e = chrono_ymd(end)->0;
        ymd_le((s.0, s.1, 1), e) && e.0 == 262142 && e.1 == 12
    }
}

/// The months of a range, in order (see `spec_months`).  Fails when a date
/// does not parse, or with `DateRangeOverflow` when the range reaches
/// `chrono`'s last month (the month after it cannot be stepped to).
pub fn month_buckets(start: &str, end: &str) -> (r: Result<Vec<String>, FinanceError>)
    ensures
        spec_months(start@, end@) is None ==> r == Err::<Vec<String>, FinanceError>(FinanceError::InvalidDate),
        reaches_last_month(start@, end@) ==> r == Err::<Vec<String>, FinanceError>(FinanceError::DateRangeOverflow),
        spec_months(start@, end@) is Some && !reaches_last_month(start@, end@) ==> (r matches Ok(v)
            && spec_months(start@, end@) == Some(crate::closing::texts(v@))),
{
    let s = match parse_ymd(start) {
        Some(d) => d,
        None => return Err(FinanceError::InvalidDate),
    };
    let e = match parse_ymd(end) {
        Some(d) => d,
        None => return Err(FinanceError::InvalidDate),
    };
    let ghost ev = (e.0 as int, e.1 as int, e.2 as int);
    let ghost total = month_count(s.0 as int, s.1 as int, ev);
    let mut y = s.0;
    let mut m = s.1;
    let mut out: Vec<String> = Vec::new();
    while y < e.0 || (y == e.0 && (m < e.1 || (m == e.1 && 1 <= e.2)))
        invariant
            1 <= m <= 12,
            chrono_year(y as int),
            chrono_year(e.0 as int),
            ymd_le((y as int, m as int, 1), ev) ==> ymd_le((s.0 as int, s.1 as int, 1), ev),
            1 <= e.1 <= 12,
            1 <= e.2 <= 31,
            ev == (e.0 as int, e.1 as int, e.2 as int),
            chrono_ymd(start@) == Some((s.0 as int, s.1 as int, s.2 as int)),
            chrono_ymd(end@) == Some(ev),
            total == month_count(s.0 as int, s.1 as int, ev),
            crate::closing::texts(out@) + months_from(y as int, m as int, ev, month_count(y as int, m as int, ev))
                == months_from(s.0 as int, s.1 as int, ev, total),
        decreases month_count(y as int, m as int, ev),
    {
        proof { lemma_months_step(y as int, m as int, ev); }
        let name = format_year_month(y, m);
        let ghost before = out@;
        out.push(name);
        assert(crate::closing::texts(out@) =~= crate::closing::texts(before).push(chrono_year_month(y as int, m as int)));
        match next_month(y, m) {
            Some(n) => {
                y = n.0;
                m = n.1;
            },
            None => return Err(FinanceError::DateRangeOverflow),
        }
        assert(crate::closing::texts(out@) + months_from(y as int, m as int, ev, month_count(y as int, m as int, ev))
            =~= months_from(s.0 as int, s.1 as int, ev, total));
    }
    assert(months_from(y as int, m as int, ev, month_count(y as int, m as int, ev)) =~= seq![]);
    assert(crate::closing::texts(out@) =~= months_from(s.0 as int, s.1 as int, ev, total));
    Ok(out)
}

// ---------------------------------------------------------------------
// Measures.

/// Income, consumption expense and investment contributions, in minor units.
#[derive(Debug, Clone, Copy, PartialEq, Eq, Structural)]
pub struct NumericMeasures {
    pub income: i64,
    pub expense: i64,
    pub contribution: i64,
}

pub open spec fn zero_measures() -> NumericMeasures {
    NumericMeasures { income: 0, expense: 0, contribution: 0 }
}

/// Measures as text: the currency and each amount, with the net cash flow.
pub struct Measures {
    pub currency: Option<String>,
    pub income_minor: String,
    pub consumption_expense_minor: String,
    pub net_cash_flow_minor: String,
    pub investment_contribution_minor: String,
}

/// `r` shows the numeric measures `n` in `currency`.
pub open spec fn shows(r: Measures, n: NumericMeasures, currency: Option<Seq<char>>) -> bool {
    &&& opt_seq(r.currency) == currency
    &&& r.income_minor@ == int_digits(n.income as int)
    &&& r.consumption_expense_minor@ == int_digits(n.expense as int)
    &&& r.net_cash_flow_minor@ == int_digits(n.income - n.expense)
    &&& r.investment_contribution_minor@ == int_digits(n.contribution as int)
}

/// The measures as text; `None` when the net cash flow leaves `i64`.
pub fn transport(n: NumericMeasures, currency: Option<&str>) -> (r: Result<Measures, FinanceError>)
    ensures
        in_i64(n.income - n.expense) ==> (r matches Ok(m) && shows(m, n, match currency {
            Some(c) => Some(c@),
            None => None,
        })),
        !in_i64(n.income - n.expense) ==> r == Err::<Measures, FinanceError>(FinanceError::AmountOverflow),
{
    let net = match n.income.checked_sub(n.expense) {
        Some(x) => x,
        None => return Err(FinanceError::AmountOverflow),
    };
    Ok(Measures {
        currency: match currency {
            Some(c) => Some(owned(c)),
            None => None,
        },
        income_minor: format_i64(n.income),
        consumption_expense_minor: format_i64(n.expense),
        net_cash_flow_minor: format_i64(net),
        investment_contribution_minor: format_i64(n.contribution),
    })
}

// ---------------------------------------------------------------------
// Sorted sets of text.

/// Strictly increasing text (the order of a `BTreeSet<String>`).
pub open spec fn strictly_sorted(v: Seq<Seq<char>>) -> bool {
    forall|i: int, j: int| 0 <= i < j < v.len() ==> seq_lt(#[trigger] v[i], #[trigger] v[j])
}

/// `v` lists the texts of `set`, each once, in increasing order.
pub open spec fn sorted_set(v: Seq<Seq<char>>, set: Set<Seq<char>>) -> bool {
    strictly_sorted(v) && v.to_set() == set
}

proof fn lemma_push_to_set(s: Seq<Seq<char>>, x: Seq<char>)
    ensures
        s.push(x).to_set() == s.to_set().insert(x),
{
    assert forall|y: Seq<char>| s.push(x).to_set().contains(y) <==> s.to_set().insert(x).contains(y) by {
        if s.push(x).contains(y) {
            let k = choose|k: int| 0 <= k < s.push(x).len() && s.push(x)[k] == y;
            if k < s.len() {
                assert(s[k] == y);
            }
        }
        if s.contains(y) {
            let k = choose|k: int| 0 <= k < s.len() && s[k] == y;
            assert(s.push(x)[k] == y);
        }
        if y == x {
            assert(s.push(x)[s.len() as int] == x);
        }
    }
    assert(s.push(x).to_set() =~= s.to_set().insert(x));
}

/// Adds `s` to a sorted list of texts unless it is there.
fn insert_sorted(v: &mut Vec<String>, s: String)
    requires
        strictly_sorted(crate::closing::texts(old(v)@)),
    ensures
        strictly_sorted(crate::closing::texts(final(v)@)),
        crate::closing::texts(final(v)@).to_set() == crate::closing::texts(old(v)@).to_set().insert(s@),
{
    let ghost before = crate::closing::texts(v@);
    let mut p: usize = 0;
    while p < v.len() && str_lt(v[p].as_str(), s.as_str())
        invariant
            p <= v@.len(),
            before == crate::closing::texts(v@),
            forall|j: int| 0 <= j < p ==> seq_lt(#[trigger] before[j], s@),
        decreases v.len() - p,
    {
        p = p + 1;
    }
    if p < v.len() && str_eq(v[p].as_str(), s.as_str()) {
        assert(before[p as int] == s@);
        assert(before.to_set().insert(s@) =~= before.to_set());
        return;
    }
    proof {
        if p < v@.len() {
            crate::ordered::lemma_seq_lt_total(before[p as int], s@);
        }
        assert forall|j: int| p <= j < before.len() implies seq_lt(s@, #[trigger] before[j]) by {
            crate::ordered::lemma_seq_lt_total(before[p as int], s@);
            if j > p {
                crate::ordered::lemma_seq_lt_transitive(s@, before[p as int], before[j]);
            }
        }
    }
    v.insert(p, s);
    proof {
        let after = crate::closing::texts(v@);
        assert(after =~= before.insert(p as int, s@));
        assert forall|i: int, j: int| 0 <= i < j < after.len() implies seq_lt(#[trigger] after[i], #[trigger] after[j]) by {
            if i < p && j > p {
                crate::ordered::lemma_seq_lt_transitive(after[i], s@, after[j]);
            }
        }
        assert(after.to_set() =~= before.to_set().insert(s@)) by {
            assert forall|x: Seq<char>| after.to_set().contains(x) <==> before.to_set().insert(s@).contains(x) by {
                if after.to_set().contains(x) {
                    let k = choose|k: int| 0 <= k < after.len() && after[k] == x;
                    if k < p {
                        assert(before[k] == x);
                    } else if k > p {
                        assert(before[k - 1] == x);
                    }
                }
                if before.to_set().contains(x) {
                    let k = choose|k: int| 0 <= k < before.len() && before[k] == x;
                    if k < p {
                        assert(after[k] == x);
                    } else {
                        assert(after[k + 1] == x);
                    }
                }
                if x == s@ {
                    assert(after[p as int] == x);
                }
            }
        }
    }
}

/// The texts of `items`, each once, in increasing order.
pub fn sorted_set_of(items: &Vec<String>) -> (r: Vec<String>)
    ensures
        sorted_set(crate::closing::texts(r@), crate::closing::texts(items@).to_set()),
{
    let mut out: Vec<String> = Vec::new();
    let mut i: usize = 0;
    assert(crate::closing::texts(out@).to_set() =~= crate::closing::texts(items@.subrange(0, 0)).to_set());
    while i < items.len()
        invariant
            i <= items@.len(),
            strictly_sorted(crate::closing::texts(out@)),
            crate::closing::texts(out@).to_set() == crate::closing::texts(items@.subrange(0, i as int)).to_set(),
        decreases items.len() - i,
    {
        insert_sorted(&mut out, items[i].clone());
        assert(crate::closing::texts(items@.subrange(0, i + 1)) =~= crate::closing::texts(items@.subrange(0, i as int)).push(items@[i as int]@));
        proof { lemma_push_to_set(crate::closing::texts(items@.subrange(0, i as int)), items@[i as int]@); }
        i = i + 1;
    }
    assert(items@.subrange(0, items@.len() as int) =~= items@);
    out
}

// ---------------------------------------------------------------------
// Filters.

/// What the dashboard is asked for.
#[derive(Debug, Clone, PartialEq, Eq)]
pub struct FinanceFilterRequest {
    pub start_date: String,
    pub end_date: String,
    pub currency: Option<String>,
    pub account_ids: Option<Vec<String>>,
    pub category_ids: Option<Vec<String>>,
}

pub struct AccountDimension {
    pub id: String,
    pub name: String,
    pub currency: String,
}

pub struct CategoryDimension {
    pub id: String,
    pub name: String,
    pub currencies: Vec<String>,
}

pub struct InstrumentDimension {
    pub id: String,
    pub name: String,
    pub instrument_type: String,
    pub denomination_currency: String,
}

/// What there is to choose from in the range.
pub struct Dimensions {
    pub currencies: Vec<String>,
    pub accounts: Vec<AccountDimension>,
    pub categories: Vec<CategoryDimension>,
    pub instruments: Vec<InstrumentDimension>,
}

/// The filters the dashboard applies.
pub struct ResolvedFilters {
    pub start_date: String,
    pub end_date: String,
    pub currency: Option<String>,
    pub account_ids: Vec<String>,
    pub category_ids: Vec<String>,
    pub category_scope: String,
}

/// The currency the dashboard shows: the requested one (upper-cased) when
/// the range has it, an error when it does not, else the range's first.
pub open spec fn spec_currency(request: FinanceFilterRequest, d: Dimensions) -> Result<Option<Seq<char>>, FinanceError> {
    match request.currency {
        Some(c) => if crate::closing::texts(d.currencies@).contains(ascii_upper(c@)) {
            Ok(Some(ascii_upper(c@)))
        } else {
            Err(FinanceError::UnavailableCurrency)
        },
        None => if d.currencies@.len() > 0 { Ok(Some(d.currencies@[0]@)) } else { Ok(None) },
    }
}

/// The accounts in the currency.
pub open spec fn compatible_accounts(d: Dimensions, currency: Option<Seq<char>>) -> Set<Seq<char>> {
    Set::new(|id: Seq<char>| exists|i: int| 0 <= i < d.accounts@.len() && (#[trigger] d.accounts@[i]).id@ == id
        && Some(d.accounts@[i].currency@) == currency)
}

/// The categories with expenses in the currency.
pub open spec fn compatible_categories(d: Dimensions, currency: Option<Seq<char>>) -> Set<Seq<char>> {
    Set::new(|id: Seq<char>| exists|i: int| 0 <= i < d.categories@.len() && (#[trigger] d.categories@[i]).id@ == id
        && currency is Some && crate::closing::texts(d.categories@[i].currencies@).contains(currency->0))
}

/// The selected ones among the compatible ones, or all compatible ones when
/// none are selected.
pub open spec fn chosen(requested: Option<Vec<String>>, compatible: Set<Seq<char>>) -> Set<Seq<char>> {
    match requested {
        Some(ids) => crate::closing::texts(ids@).to_set().intersect(compatible),
        None => compatible,
    }
}

/// `f` are the filters resolved from `request` with `currency`.
pub open spec fn resolved(f: ResolvedFilters, request: FinanceFilterRequest, d: Dimensions, currency: Option<Seq<char>>) -> bool {
    &&& f.start_date == request.start_date
    &&& f.end_date == request.end_date
    &&& opt_seq(f.currency) == currency
    &&& sorted_set(crate::closing::texts(f.account_ids@), chosen(request.account_ids, compatible_accounts(d, currency)))
    &&& sorted_set(crate::closing::texts(f.category_ids@), chosen(request.category_ids, compatible_categories(d, currency)))
    &&& f.category_scope@ == (if request.category_ids is Some { "expense_only"@ } else { "all_expenses"@ })
}

fn account_candidates(d: &Dimensions, currency: &Option<String>) -> (r: Vec<String>)
    ensures
        crate::closing::texts(r@).to_set() == compatible_accounts(*d, opt_seq(*currency)),
{
    let mut out: Vec<String> = Vec::new();
    let mut i: usize = 0;
    while i < d.accounts.len()
        invariant
            i <= d.accounts@.len(),
            forall|x: Seq<char>| crate::closing::texts(out@).contains(x) <==> exists|j: int| 0 <= j < i
                && (#[trigger] d.accounts@[j]).id@ == x && Some(d.accounts@[j].currency@) == opt_seq(*currency),
        decreases d.accounts.len() - i,
    {
        let a = &d.accounts[i];
        let same = match currency {
            Some(c) => str_eq(a.currency.as_str(), c.as_str()),
            None => false,
        };
        let ghost before = out@;
        if same {
            out.push(a.id.clone());
            assert(crate::closing::texts(out@) =~= crate::closing::texts(before).push(a.id@));
        }
        assert forall|x: Seq<char>| crate::closing::texts(out@).contains(x) <==> exists|j: int| 0 <= j < i + 1
            && (#[trigger] d.accounts@[j]).id@ == x && Some(d.accounts@[j].currency@) == opt_seq(*currency) by {
            if crate::closing::texts(out@).contains(x) {
                if crate::closing::texts(before).contains(x) {
                    let j = choose|j: int| 0 <= j < i && (#[trigger] d.accounts@[j]).id@ == x && Some(d.accounts@[j].currency@) == opt_seq(*currency);
                    assert(d.accounts@[j].id@ == x);
                } else {
                    let k = choose|k: int| 0 <= k < crate::closing::texts(out@).len() && crate::closing::texts(out@)[k] == x;
                    assert(k == before.len());
                    assert(d.accounts@[i as int].id@ == x);
                }
            }
            if exists|j: int| 0 <= j < i + 1 && (#[trigger] d.accounts@[j]).id@ == x && Some(d.accounts@[j].currency@) == opt_seq(*currency) {
                let j = choose|j: int| 0 <= j < i + 1 && (#[trigger] d.accounts@[j]).id@ == x && Some(d.accounts@[j].currency@) == opt_seq(*currency);
                if j < i {
                    assert(crate::closing::texts(before).contains(x));
                    let k = choose|k: int| 0 <= k < crate::closing::texts(before).len() && crate::closing::texts(before)[k] == x;
                    assert(crate::closing::texts(out@)[k] == x);
                } else {
                    assert(crate::closing::texts(out@)[before.len() as int] == x);
                }
            }
        }
        i = i + 1;
    }
    assert(crate::closing::texts(out@).to_set() =~= compatible_accounts(*d, opt_seq(*currency)));
    out
}

fn text_listed(v: &Vec<String>, s: &str) -> (r: bool)
    ensures
        r == crate::closing::texts(v@).contains(s@),
{
    let mut i: usize = 0;
    while i < v.len()
        invariant
            i <= v@.len(),
            forall|j: int| 0 <= j < i ==> (#[trigger] v@[j])@ != s@,
        decreases v.len() - i,
    {
        if str_eq(v[i].as_str(), s) {
            assert(crate::closing::texts(v@)[i as int] == s@);
            return true;
        }
        i = i + 1;
    }
    assert forall|k: int| 0 <= k < v@.len() implies crate::closing::texts(v@)[k] != s@ by {
        assert(v@[k]@ != s@);
    }
    false
}

fn category_candidates(d: &Dimensions, currency: &Option<String>) -> (r: Vec<String>)
    ensures
        crate::closing::texts(r@).to_set() == compatible_categories(*d, opt_seq(*currency)),
{
    let mut out: Vec<String> = Vec::new();
    let mut i: usize = 0;
    while i < d.categories.len()
        invariant
            i <= d.categories@.len(),
            forall|x: Seq<char>| crate::closing::texts(out@).contains(x) <==> exists|j: int| 0 <= j < i
                && (#[trigger] d.categories@[j]).id@ == x && opt_seq(*currency) is Some
                && crate::closing::texts(d.categories@[j].currencies@).contains(opt_seq(*currency)->0),
        decreases d.categories.len() - i,
    {
        let c = &d.categories[i];
        let has = match currency {
            Some(cur) => text_listed(&c.currencies, cur.as_str()),
            None => false,
        };
        let ghost before = out@;
        if has {
            out.push(c.id.clone());
            assert(crate::closing::texts(out@) =~= crate::closing::texts(before).push(c.id@));
        }
        assert forall|x: Seq<char>| crate::closing::texts(out@).contains(x) <==> exists|j: int| 0 <= j < i + 1
            && (#[trigger] d.categories@[j]).id@ == x && opt_seq(*currency) is Some
            && crate::closing::texts(d.categories@[j].currencies@).contains(opt_seq(*currency)->0) by {
            if crate::closing::texts(out@).contains(x) {
                if crate::closing::texts(before).contains(x) {
                    let j = choose|j: int| 0 <= j < i && (#[trigger] d.categories@[j]).id@ == x && opt_seq(*currency) is Some
                        && crate::closing::texts(d.categories@[j].currencies@).contains(opt_seq(*currency)->0);
                    assert(d.categories@[j].id@ == x);
                } else {
                    let k = choose|k: int| 0 <= k < crate::closing::texts(out@).len() && crate::closing::texts(out@)[k] == x;
                    assert(k == before.len());
                    assert(d.categories@[i as int].id@ == x);
                }
            }
            if exists|j: int| 0 <= j < i + 1 && (#[trigger] d.categories@[j]).id@ == x && opt_seq(*currency) is Some
                && crate::closing::texts(d.categories@[j].currencies@).contains(opt_seq(*currency)->0) {
                let j = choose|j: int| 0 <= j < i + 1 && (#[trigger] d.categories@[j]).id@ == x && opt_seq(*currency) is Some
                    && crate::closing::texts(d.categories@[j].currencies@).contains(opt_seq(*currency)->0);
                if j < i {
                    assert(crate::closing::texts(before).contains(x));
                    let k = choose|k: int| 0 <= k < crate::closing::texts(before).len() && crate::closing::texts(before)[k] == x;
                    assert(crate::closing::texts(out@)[k] == x);
                } else {
                    assert(crate::closing::texts(out@)[before.len() as int] == x);
                }
            }
        }
        i = i + 1;
    }
    assert(crate::closing::texts(out@).to_set() =~= compatible_categories(*d, opt_seq(*currency)));
    out
}

fn choose_ids(requested: &Option<Vec<String>>, compatible: &Vec<String>) -> (r: Vec<String>)
    ensures
        sorted_set(crate::closing::texts(r@), chosen(*requested, crate::closing::texts(compatible@).to_set())),
{
    match requested {
        None => sorted_set_of(compatible),
        Some(ids) => {
            let mut keep: Vec<String> = Vec::new();
            let mut i: usize = 0;
            while i < ids.len()
                invariant
                    i <= ids@.len(),
                    crate::closing::texts(keep@).to_set() == crate::closing::texts(ids@.subrange(0, i as int)).to_set().intersect(
                        crate::closing::texts(compatible@).to_set()),
                decreases ids.len() - i,
            {
                let ghost before = keep@;
                assert(crate::closing::texts(ids@.subrange(0, i + 1)) =~= crate::closing::texts(ids@.subrange(0, i as int)).push(ids@[i as int]@));
                proof { lemma_push_to_set(crate::closing::texts(ids@.subrange(0, i as int)), ids@[i as int]@); }
                if text_listed(compatible, ids[i].as_str()) {
                    keep.push(ids[i].clone());
                    assert(crate::closing::texts(keep@) =~= crate::closing::texts(before).push(ids@[i as int]@));
                    proof { lemma_push_to_set(crate::closing::texts(before), ids@[i as int]@); }
                }
                assert(crate::closing::texts(keep@).to_set() =~= crate::closing::texts(ids@.subrange(0, i + 1)).to_set().intersect(
                    crate::closing::texts(compatible@).to_set()));
                i = i + 1;
            }
            assert(ids@.subrange(0, ids@.len() as int) =~= ids@);
            sorted_set_of(&keep)
        },
    }
}

/// Resolves the requested filters against what the range has (see
/// `resolved` and `spec_currency`).
pub fn resolve_filters(request: &FinanceFilterRequest, d: &Dimensions) -> (r: Result<ResolvedFilters, FinanceError>)
    ensures
        match spec_currency(*request, *d) {
            Err(e) => r == Err::<ResolvedFilters, FinanceError>(e),
            Ok(c) => r matches Ok(f) && resolved(f, *request, *d, c),
        },
{
    let currency: Option<String> = match &request.currency {
        Some(c) => {
            let upper = to_ascii_uppercase(c.as_str());
            if text_listed(&d.currencies, upper.as_str()) {
                Some(upper)
            } else {
                return Err(FinanceError::UnavailableCurrency);
            }
        },
        None => if d.currencies.len() > 0 { Some(d.currencies[0].clone()) } else { None },
    };
    let accounts = account_candidates(d, &currency);
    let categories = category_candidates(d, &currency);
    let account_ids = choose_ids(&request.account_ids, &accounts);
    let category_ids = choose_ids(&request.category_ids, &categories);
    let category_scope = if request.category_ids.is_some() { owned("expense_only") } else { owned("all_expenses") };
    proof {
        reveal_strlit("expense_only");
        reveal_strlit("all_expenses");
    }
    Ok(ResolvedFilters {
        start_date: request.start_date.clone(),
        end_date: request.end_date.clone(),
        currency,
        account_ids,
        category_ids,
        category_scope,
    })
}

// ---------------------------------------------------------------------
// Aggregation.

/// A canonical transaction within the range.
pub struct TransactionRow {
    pub id: String,
    pub account_id: Option<String>,
    pub posted_date: String,
    pub description: String,
    pub amount_minor: i64,
    pub currency: String,
    pub kind: String,
}

/// A categorized line of an expense within the range.
pub struct ExpenseLineRow {
    pub id: String,
    pub transaction_id: String,
    pub account_id: Option<String>,
    pub posted_date: String,
    pub description: String,
    pub category_id: String,
    pub category_name: String,
    pub amount_minor: i64,
    pub currency: String,
}

/// The category of an expense line.
pub open spec fn line_category(l: ExpenseLineRow) -> Seq<char> {
    l.category_id@
}

/// Position of the first line of category `id`, or `-1`.
pub open spec fn first_line_of(lines: Seq<ExpenseLineRow>, id: Seq<char>) -> int
    decreases lines.len(),
{
    if lines.len() == 0 {
        -1
    } else {
        let before = first_line_of(lines.drop_last(), id);
        if before >= 0 {
            before
        } else if lines.last().category_id@ == id {
            lines.len() - 1
        } else {
            -1
        }
    }
}

/// The currencies of the lines of category `id`, in line order.
pub open spec fn currencies_of_category(lines: Seq<ExpenseLineRow>, id: Seq<char>) -> Seq<Seq<char>>
    decreases lines.len(),
{
    if lines.len() == 0 {
        Seq::empty()
    } else {
        let before = currencies_of_category(lines.drop_last(), id);
        if lines.last().category_id@ == id {
            before.push(lines.last().currency@)
        } else {
            before
        }
    }
}

/// Category dimensions read from expense lines: each category once, by
/// increasing id, named as its first line names it, with the currencies
/// its lines use, each once, in increasing order.
pub open spec fn category_dimensions_of(lines: Seq<ExpenseLineRow>, cats: Seq<CategoryDimension>) -> bool {
    &&& sorted_set(cats.map_values(|c: CategoryDimension| c.id@), lines.map_values(|l: ExpenseLineRow| l.category_id@).to_set())
    &&& forall|i: int| 0 <= i < cats.len() ==> {
        let id = (#[trigger] cats[i]).id@;
        &&& first_line_of(lines, id) >= 0
        &&& cats[i].name@ == lines[first_line_of(lines, id)].category_name@
        &&& sorted_set(crate::closing::texts(cats[i].currencies@), currencies_of_category(lines, id).to_set())
    }
}

proof fn lemma_first_line_found(lines: Seq<ExpenseLineRow>, id: Seq<char>, j: int)
    requires
        0 <= j < lines.len(),
        lines[j].category_id@ == id,
        forall|k: int| 0 <= k < j ==> lines[k].category_id@ != id,
    ensures
        first_line_of(lines, id) == j,
    decreases lines.len(),
{
    if j < lines.len() - 1 {
        lemma_first_line_found(lines.drop_last(), id, j);
    } else {
        lemma_first_line_absent(lines.drop_last(), id);
    }
}

proof fn lemma_first_line_absent(lines: Seq<ExpenseLineRow>, id: Seq<char>)
    requires
        forall|k: int| 0 <= k < lines.len() ==> lines[k].category_id@ != id,
    ensures
        first_line_of(lines, id) == -1,
    decreases lines.len(),
{
    if lines.len() > 0 {
        lemma_first_line_absent(lines.drop_last(), id);
    }
}

/// The category dimensions of `lines` (see `category_dimensions_of`).
pub fn category_dimensions(lines: &Vec<ExpenseLineRow>) -> (r: Vec<CategoryDimension>)
    ensures
        category_dimensions_of(lines@, r@),
{
    let mut ids_in: Vec<String> = Vec::new();
    let mut i: usize = 0;
    while i < lines.len()
        invariant
            i <= lines.len(),
            crate::closing::texts(ids_in@) == lines@.subrange(0, i as int).map_values(|l: ExpenseLineRow| l.category_id@),
        decreases lines.len() - i,
    {
        ids_in.push(lines[i].category_id.clone());
        assert(lines@.subrange(0, i + 1).map_values(|l: ExpenseLineRow| l.category_id@) =~= lines@.subrange(
            0,
            i as int,
        ).map_values(|l: ExpenseLineRow| l.category_id@).push(lines@[i as int].category_id@));
        assert(crate::closing::texts(ids_in@) =~= lines@.subrange(0, i as int).map_values(|l: ExpenseLineRow| l.category_id@).push(lines@[i as int].category_id@));
        i = i + 1;
    }
    assert(lines@.subrange(0, lines.len() as int) =~= lines@);
    let ids = sorted_set_of(&ids_in);
    let mut out: Vec<CategoryDimension> = Vec::new();
    let mut k: usize = 0;
    while k < ids.len()
        invariant
            k <= ids.len(),
            out.len() == k,
            sorted_set(crate::closing::texts(ids@), lines@.map_values(|l: ExpenseLineRow| l.category_id@).to_set()),
            forall|m: int| 0 <= m < k ==> (#[trigger] out@[m]).id@ == ids@[m]@,
            forall|m: int| 0 <= m < k ==> {
                let id = (#[trigger] out@[m]).id@;
                &&& first_line_of(lines@, id) >= 0
                &&& out@[m].name@ == lines@[first_line_of(lines@, id)].category_name@
                &&& sorted_set(crate::closing::texts(out@[m].currencies@), currencies_of_category(lines@, id).to_set())
            },
        decreases ids.len() - k,
    {
        let id = ids[k].as_str();
        let ghost idv = id@;
        assert(crate::closing::texts(ids@)[k as int] == idv);
        assert(lines@.map_values(|l: ExpenseLineRow| l.category_id@).to_set().contains(idv));
        let ghost cat_ids = lines@.map_values(|l: ExpenseLineRow| l.category_id@);
        let ghost w = choose|j: int| 0 <= j < cat_ids.len() && #[trigger] cat_ids[j] == idv;
        assert(lines@[w].category_id@ == idv);
        let mut name: Option<String> = None;
        let mut currencies: Vec<String> = Vec::new();
        let mut j: usize = 0;
        assert(lines@.subrange(0, 0) =~= Seq::<ExpenseLineRow>::empty());
        while j < lines.len()
            invariant
                j <= lines.len(),
                id@ == idv,
                0 <= w < lines@.len(),
                lines@[w].category_id@ == idv,
                match name {
                    Some(n) => first_line_of(lines@, idv) >= 0 && first_line_of(lines@, idv) < j && n@ == lines@[first_line_of(lines@, idv)].category_name@,
                    None => forall|q: int| 0 <= q < j ==> lines@[q].category_id@ != idv,
                },
                crate::closing::texts(currencies@) == currencies_of_category(lines@.subrange(0, j as int), idv),
            decreases lines.len() - j,
        {
            let ghost pre = lines@.subrange(0, j as int);
            proof {
                assert(lines@.subrange(0, j + 1).drop_last() =~= pre);
                assert(lines@.subrange(0, j + 1).last() == lines@[j as int]);
            }
            if str_eq(lines[j].category_id.as_str(), id) {
                if name.is_none() {
                    proof {
                        lemma_first_line_found(lines@, idv, j as int);
                    }
                    name = Some(lines[j].category_name.clone());
                }
                let ghost before = crate::closing::texts(currencies@);
                currencies.push(lines[j].currency.clone());
                assert(crate::closing::texts(currencies@) =~= before.push(lines@[j as int].currency@));
            }
            j = j + 1;
        }
        assert(lines@.subrange(0, lines.len() as int) =~= lines@);
        let name = match name {
            Some(n) => n,
            None => {
                assert(lines@[w].category_id@ != idv);
                String::new()
            },
        };
        let set = sorted_set_of(&currencies);
        let id_text = ids[k].clone();
        assert(id_text@ == idv);
        assert(crate::closing::texts(currencies@) == currencies_of_category(lines@, idv));
        let ghost before = out@;
        let dim = CategoryDimension { id: id_text, name, currencies: set };
        assert(first_line_of(lines@, idv) >= 0);
        assert(dim.name@ == lines@[first_line_of(lines@, idv)].category_name@);
        out.push(dim);
        assert(out@[k as int] == dim);
        assert forall|m: int| 0 <= m < k + 1 implies (#[trigger] out@[m]).id@ == ids@[m]@ by {
            if m < k {
                assert(out@[m] == before[m]);
            }
        }
        assert forall|m: int| 0 <= m < k + 1 implies {
            let id = (#[trigger] out@[m]).id@;
            &&& first_line_of(lines@, id) >= 0
            &&& out@[m].name@ == lines@[first_line_of(lines@, id)].category_name@
            &&& sorted_set(crate::closing::texts(out@[m].currencies@), currencies_of_category(lines@, id).to_set())
        } by {
            if m < k {
                assert(out@[m] == before[m]);
            }
        }
        k = k + 1;
    }
    assert(out@.map_values(|c: CategoryDimension| c.id@) =~= crate::closing::texts(ids@));
    out
}

/// What there is to choose from: the transactions' currencies, each once
/// in increasing order, the owned accounts and instruments as read, and the
/// categories of the expense lines (see `category_dimensions`).
pub fn dimensions_from(
    txs: &Vec<TransactionRow>,
    lines: &Vec<ExpenseLineRow>,
    accounts: Vec<AccountDimension>,
    instruments: Vec<InstrumentDimension>,
) -> (r: Dimensions)
    ensures
        sorted_set(crate::closing::texts(r.currencies@), txs@.map_values(|t: TransactionRow| t.currency@).to_set()),
        r.accounts == accounts,
        r.instruments == instruments,
        category_dimensions_of(lines@, r.categories@),
{
    let mut all: Vec<String> = Vec::new();
    let mut i: usize = 0;
    while i < txs.len()
        invariant
            i <= txs.len(),
            crate::closing::texts(all@) == txs@.subrange(0, i as int).map_values(|t: TransactionRow| t.currency@),
        decreases txs.len() - i,
    {
        all.push(txs[i].currency.clone());
        assert(txs@.subrange(0, i + 1).map_values(|t: TransactionRow| t.currency@) =~= txs@.subrange(0, i as int).map_values(
            |t: TransactionRow| t.currency@,
        ).push(txs@[i as int].currency@));
        assert(crate::closing::texts(all@) =~= txs@.subrange(0, i as int).map_values(|t: TransactionRow| t.currency@).push(txs@[i as int].currency@));
        i = i + 1;
    }
    assert(txs@.subrange(0, txs.len() as int) =~= txs@);
    let currencies = sorted_set_of(&all);
    let categories = category_dimensions(lines);
    Dimensions { currencies, accounts, categories, instruments }
}

pub type TextKey = Seq<Option<Seq<char>>>;

pub open spec fn tkey(s: Seq<char>) -> TextKey {
    seq![Some(s)]
}

pub open spec fn selected_account(f: ResolvedFilters, account: Option<String>) -> bool {
    account matches Some(a) && crate::closing::texts(f.account_ids@).contains(a@)
}

pub open spec fn category_filtered(f: ResolvedFilters) -> bool {
    f.category_scope@ == "expense_only"@
}

/// A line counts when it is in the currency and a selected account and,
/// where categories are filtered, in a selected category.
pub open spec fn line_selected(l: ExpenseLineRow, f: ResolvedFilters, c: Seq<char>) -> bool {
    l.currency@ == c && selected_account(f, l.account_id)
        && (!category_filtered(f) || crate::closing::texts(f.category_ids@).contains(l.category_id@))
}

/// Per transaction and per category, the magnitudes of the selected
/// lines; `None` when an amount leaves `i64`.
pub open spec fn spec_lines(lines: Seq<ExpenseLineRow>, f: ResolvedFilters, c: Seq<char>) -> Option<(Map<TextKey, i64>, Map<TextKey, i64>)>
    decreases lines.len(),
{
    if lines.len() == 0 {
        Some((Map::empty(), Map::empty()))
    } else {
        match spec_lines(lines.drop_last(), f, c) {
            None => None,
            Some((bt, bc)) => {
                let l = lines.last();
                if !line_selected(l, f, c) {
                    Some((bt, bc))
                } else if !in_i64(-l.amount_minor) {
                    None
                } else {
                    match crate::reports::spec_add_keep(bt, tkey(l.transaction_id@), -l.amount_minor) {
                        None => None,
                        Some(bt2) => match crate::reports::spec_add_keep(bc, tkey(l.category_id@), -l.amount_minor) {
                            None => None,
                            Some(bc2) => Some((bt2, bc2)),
                        },
                    }
                }
            },
        }
    }
}

pub open spec fn add_income(n: NumericMeasures, amount: int) -> Option<NumericMeasures> {
    if in_i64(n.income + amount) { Some(NumericMeasures { income: (n.income + amount) as i64, ..n }) } else { None }
}

pub open spec fn add_expense(n: NumericMeasures, amount: int) -> Option<NumericMeasures> {
    if in_i64(n.expense + amount) { Some(NumericMeasures { expense: (n.expense + amount) as i64, ..n }) } else { None }
}

pub open spec fn add_contribution(n: NumericMeasures, amount: int) -> Option<NumericMeasures> {
    if in_i64(-amount) && in_i64(n.contribution - amount) {
        Some(NumericMeasures { contribution: (n.contribution - amount) as i64, ..n })
    } else {
        None
    }
}

/// A transaction's effect on a set of measures: positive income adds to
/// income, an expense adds its magnitude (or, where categories are
/// filtered, the magnitude of its selected lines), a contribution adds its
/// magnitude; whether the transaction counts as an account row.
pub open spec fn apply_kind(n: NumericMeasures, t: TransactionRow, expense: int) -> Option<NumericMeasures> {
    if t.kind@ == "income"@ && t.amount_minor > 0 {
        add_income(n, t.amount_minor as int)
    } else if t.kind@ == "expense"@ {
        add_expense(n, expense)
    } else if t.kind@ == "investment_contribution"@ {
        add_contribution(n, t.amount_minor as int)
    } else {
        Some(n)
    }
}

/// How a transaction moves the dashboard's measures: a positive income adds
/// its amount to income, an expense adds its counted expense, an
/// investment contribution (stored as an outflow) adds its magnitude to
/// contributions, and anything else changes nothing.
pub proof fn law_transaction_measures(n: NumericMeasures, t: TransactionRow, expense: int)
    ensures
        apply_kind(n, t, expense) matches Some(m) ==> {
            &&& (t.kind@ == "income"@ && t.amount_minor > 0) ==> m == NumericMeasures {
                income: (n.income + t.amount_minor) as i64, ..n }
            &&& t.kind@ == "expense"@ ==> m == NumericMeasures { expense: (n.expense + expense) as i64, ..n }
            &&& t.kind@ == "investment_contribution"@ ==> m == NumericMeasures {
                contribution: (n.contribution - t.amount_minor) as i64, ..n }
            &&& !(t.kind@ == "income"@ || t.kind@ == "expense"@ || t.kind@ == "investment_contribution"@) ==> m == n
        },
        apply_kind(n, t, expense) matches Some(m) ==> (m.income == n.income + (if t.kind@ == "income"@ && t.amount_minor > 0 {
            t.amount_minor as int } else { 0 })),
{
    reveal_strlit("income");
    reveal_strlit("expense");
    reveal_strlit("investment_contribution");
    assert("income"@.len() != "expense"@.len());
    assert("income"@.len() != "investment_contribution"@.len());
    assert("expense"@.len() != "investment_contribution"@.len());
}

pub open spec fn counts_row(t: TransactionRow, expense: int) -> bool {
    (t.kind@ == "income"@ && t.amount_minor > 0) || (t.kind@ == "expense"@ && expense != 0)
        || t.kind@ == "investment_contribution"@
}

/// The expense a transaction contributes: its selected lines where
/// categories are filtered, else its magnitude (`None` when that leaves
/// `i64`).
pub open spec fn expense_of(t: TransactionRow, f: ResolvedFilters, by_tx: Map<TextKey, i64>) -> Option<int> {
    if category_filtered(f) {
        Some(if by_tx.contains_key(tkey(t.id@)) { by_tx[tkey(t.id@)] as int } else { 0 })
    } else if in_i64(-t.amount_minor) {
        Some(-t.amount_minor)
    } else {
        None
    }
}

pub open spec fn tx_selected(t: TransactionRow, f: ResolvedFilters, c: Seq<char>) -> bool {
    t.currency@ == c && selected_account(f, t.account_id)
}

pub open spec fn month_of(t: TransactionRow) -> Seq<char> {
    t.posted_date@.subrange(0, 7)
}

/// The summary, month, account and account-row tallies so far.
pub struct Tallies {
    pub summary: NumericMeasures,
    pub months: Map<TextKey, NumericMeasures>,
    pub accounts: Map<TextKey, NumericMeasures>,
    pub rows: Map<TextKey, nat>,
}

pub open spec fn measures_at(m: Map<TextKey, NumericMeasures>, k: TextKey) -> NumericMeasures {
    if m.contains_key(k) { m[k] } else { zero_measures() }
}

pub open spec fn rows_at(m: Map<TextKey, nat>, k: TextKey) -> nat {
    if m.contains_key(k) { m[k] } else { 0 }
}

/// One selected transaction tallied.
pub open spec fn spec_tally_tx(st: Tallies, t: TransactionRow, f: ResolvedFilters, by_tx: Map<TextKey, i64>) -> Option<Tallies> {
    let a = tkey(t.account_id->0@);
    let mk = tkey(month_of(t));
    match expense_of(t, f, by_tx) {
        None => if t.kind@ == "expense"@ { None } else { spec_tally_with(st, t, a, mk, 0) },
        Some(x) => spec_tally_with(st, t, a, mk, x),
    }
}

pub open spec fn spec_tally_with(st: Tallies, t: TransactionRow, a: TextKey, mk: TextKey, expense: int) -> Option<Tallies> {
    match (apply_kind(st.summary, t, expense), apply_kind(measures_at(st.months, mk), t, expense),
        apply_kind(measures_at(st.accounts, a), t, expense)) {
        (Some(s), Some(m), Some(n)) => Some(Tallies {
            summary: s,
            months: st.months.insert(mk, m),
            accounts: st.accounts.insert(a, n),
            rows: if counts_row(t, expense) { st.rows.insert(a, rows_at(st.rows, a) + 1) } else { st.rows },
        }),
        _ => None,
    }
}

/// The selected transactions tallied in order, from the month buckets.
pub open spec fn spec_tally_all(st: Tallies, txs: Seq<TransactionRow>, f: ResolvedFilters, c: Seq<char>, by_tx: Map<TextKey, i64>) -> Option<Tallies>
    decreases txs.len(),
{
    if txs.len() == 0 {
        Some(st)
    } else {
        match spec_tally_all(st, txs.drop_last(), f, c, by_tx) {
            None => None,
            Some(s) => if tx_selected(txs.last(), f, c) { spec_tally_tx(s, txs.last(), f, by_tx) } else { Some(s) },
        }
    }
}

pub open spec fn buckets_map(names: Seq<Seq<char>>) -> Map<TextKey, NumericMeasures> {
    Map::new(|k: TextKey| exists|i: int| 0 <= i < names.len() && k == tkey(names[i]), |k: TextKey| zero_measures())
}

/// Every selected transaction's date starts with seven ASCII characters
/// that name one of the range's months.
pub open spec fn months_known(txs: Seq<TransactionRow>, f: ResolvedFilters, c: Seq<char>, names: Seq<Seq<char>>) -> bool {
    forall|i: int| 0 <= i < txs.len() && tx_selected(#[trigger] txs[i], f, c) ==> {
        &&& txs[i].posted_date@.len() >= 7
        &&& (forall|j: int| 0 <= j < 7 ==> (txs[i].posted_date@[j] as u32) < 128)
        &&& names.contains(month_of(txs[i]))
    }
}

fn text_key(s: &str) -> (r: Vec<Option<String>>)
    ensures
        kv(r) == tkey(s@),
{
    let k = key_of(vec![Some(s)]);
    assert(kv(k) =~= tkey(s@));
    k
}

fn account_selected(f: &ResolvedFilters, account: &Option<String>) -> (r: bool)
    ensures
        r == selected_account(*f, *account),
{
    match account {
        Some(a) => text_listed(&f.account_ids, a.as_str()),
        None => false,
    }
}

fn is_category_filtered(f: &ResolvedFilters) -> (r: bool)
    ensures
        r == category_filtered(*f),
{
    str_eq(f.category_scope.as_str(), "expense_only")
}

proof fn lemma_lines_none_stays(lines: Seq<ExpenseLineRow>, f: ResolvedFilters, c: Seq<char>, n: nat)
    requires
        n <= lines.len(),
        spec_lines(lines.subrange(0, n as int), f, c) is None,
    ensures
        spec_lines(lines, f, c) is None,
    decreases lines.len() - n,
{
    if n < lines.len() {
        assert(lines.subrange(0, (n + 1) as int).drop_last() =~= lines.subrange(0, n as int));
        lemma_lines_none_stays(lines, f, c, n + 1);
    } else {
        assert(lines.subrange(0, n as int) =~= lines);
    }
}

/// Tallies the selected lines per transaction and per category (see
/// `spec_lines`).
pub fn tally_lines(lines: &Vec<ExpenseLineRow>, f: &ResolvedFilters, c: &str) -> (r: Result<(SortedMap<i64>, SortedMap<i64>), FinanceError>)
    ensures
        match spec_lines(lines@, *f, c@) {
            None => r == Err::<(SortedMap<i64>, SortedMap<i64>), FinanceError>(FinanceError::AmountOverflow),
            Some((bt, bc)) => r matches Ok((t, k)) && t.wf() && k.wf() && t@ == bt && k@ == bc,
        },
{
    let filtered = is_category_filtered(f);
    let mut bt: SortedMap<i64> = SortedMap::new();
    let mut bc: SortedMap<i64> = SortedMap::new();
    let mut i: usize = 0;
    while i < lines.len()
        invariant
            i <= lines@.len(),
            filtered == category_filtered(*f),
            bt.wf(),
            bc.wf(),
            spec_lines(lines@.subrange(0, i as int), *f, c@) == Some((bt@, bc@)),
        decreases lines.len() - i,
    {
        assert(lines@.subrange(0, i + 1).drop_last() =~= lines@.subrange(0, i as int));
        let l = &lines[i];
        let selected = str_eq(l.currency.as_str(), c) && account_selected(f, &l.account_id)
            && (!filtered || text_listed(&f.category_ids, l.category_id.as_str()));
        if selected {
            let amount = match negated(l.amount_minor) {
                Some(x) => x,
                None => {
                    proof { lemma_lines_none_stays(lines@, *f, c@, (i + 1) as nat); }
                    return Err(FinanceError::AmountOverflow);
                },
            };
            match crate::reports::add_keep(&mut bt, text_key(l.transaction_id.as_str()), amount) {
                Ok(()) => {},
                Err(_) => {
                    proof { lemma_lines_none_stays(lines@, *f, c@, (i + 1) as nat); }
                    return Err(FinanceError::AmountOverflow);
                },
            }
            match crate::reports::add_keep(&mut bc, text_key(l.category_id.as_str()), amount) {
                Ok(()) => {},
                Err(_) => {
                    proof { lemma_lines_none_stays(lines@, *f, c@, (i + 1) as nat); }
                    return Err(FinanceError::AmountOverflow);
                },
            }
        }
        i = i + 1;
    }
    assert(lines@.subrange(0, lines@.len() as int) =~= lines@);
    Ok((bt, bc))
}

fn apply_kind_exec(n: NumericMeasures, t: &TransactionRow, expense: i64) -> (r: Option<NumericMeasures>)
    ensures
        r == apply_kind(n, *t, expense as int),
{
    let k = t.kind.as_str();
    if str_eq(k, "income") && t.amount_minor > 0 {
        match n.income.checked_add(t.amount_minor) {
            Some(x) => Some(NumericMeasures { income: x, ..n }),
            None => None,
        }
    } else if str_eq(k, "expense") {
        match n.expense.checked_add(expense) {
            Some(x) => Some(NumericMeasures { expense: x, ..n }),
            None => None,
        }
    } else if str_eq(k, "investment_contribution") {
        match negated(t.amount_minor) {
            Some(m) => match n.contribution.checked_add(m) {
                Some(x) => Some(NumericMeasures { contribution: x, ..n }),
                None => None,
            },
            None => None,
        }
    } else {
        Some(n)
    }
}

fn measures_of(m: &SortedMap<NumericMeasures>, k: &Vec<Option<String>>) -> (r: (Option<usize>, NumericMeasures))
    requires
        m.wf(),
    ensures
        r.1 == measures_at(m@, kv(*k)),
        r.0 matches Some(j) ==> j < m.entries@.len() && m.key_at(j as int) == kv(*k),
        r.0 is None ==> !m@.contains_key(kv(*k)),
{
    match m.find(k) {
        Some(j) => {
            proof { m.lemma_view_at(j as int); }
            (Some(j), m.entries[j].value)
        },
        None => (None, NumericMeasures { income: 0, expense: 0, contribution: 0 }),
    }
}

fn put_measures(m: &mut SortedMap<NumericMeasures>, at: Option<usize>, k: Vec<Option<String>>, v: NumericMeasures)
    requires
        old(m).wf(),
        at matches Some(j) ==> j < old(m).entries@.len() && old(m).key_at(j as int) == kv(k),
        at is None ==> !old(m)@.contains_key(kv(k)),
    ensures
        final(m).wf(),
        final(m)@ == old(m)@.insert(kv(k), v),
{
    match at {
        Some(j) => m.set_value(j, v),
        None => m.insert_new(k, v),
    }
}

pub open spec fn rows_view(m: SortedMap<usize>) -> Map<TextKey, nat> {
    m@.map_values(|v: usize| v as nat)
}

pub open spec fn tallies_of(summary: NumericMeasures, months: SortedMap<NumericMeasures>, accounts: SortedMap<NumericMeasures>, rows: SortedMap<usize>) -> Tallies {
    Tallies { summary, months: months@, accounts: accounts@, rows: rows_view(rows) }
}

proof fn lemma_tally_none_stays(st: Tallies, txs: Seq<TransactionRow>, f: ResolvedFilters, c: Seq<char>, bt: Map<TextKey, i64>, n: nat)
    requires
        n <= txs.len(),
        spec_tally_all(st, txs.subrange(0, n as int), f, c, bt) is None,
    ensures
        spec_tally_all(st, txs, f, c, bt) is None,
    decreases txs.len() - n,
{
    if n < txs.len() {
        assert(txs.subrange(0, (n + 1) as int).drop_last() =~= txs.subrange(0, n as int));
        lemma_tally_none_stays(st, txs, f, c, bt, n + 1);
    } else {
        assert(txs.subrange(0, n as int) =~= txs);
    }
}

/// Tallies the selected transactions by month and account (see
/// `spec_tally_all`), starting from the month buckets given.
pub fn tally_transactions(
    txs: &Vec<TransactionRow>,
    f: &ResolvedFilters,
    c: &str,
    by_tx: &SortedMap<i64>,
    buckets: SortedMap<NumericMeasures>,
) -> (r: Result<(NumericMeasures, SortedMap<NumericMeasures>, SortedMap<NumericMeasures>, SortedMap<usize>), FinanceError>)
    requires
        by_tx.wf(),
        buckets.wf(),
        forall|i: int| 0 <= i < txs@.len() && tx_selected(#[trigger] txs@[i], *f, c@) ==> txs@[i].posted_date@.len() >= 7
            && (forall|j: int| 0 <= j < 7 ==> (txs@[i].posted_date@[j] as u32) < 128),
    ensures
        match spec_tally_all(Tallies { summary: zero_measures(), months: buckets@, accounts: Map::empty(), rows: Map::empty() },
            txs@, *f, c@, by_tx@) {
            None => r == Err::<(NumericMeasures, SortedMap<NumericMeasures>, SortedMap<NumericMeasures>, SortedMap<usize>), FinanceError>(
                FinanceError::AmountOverflow),
            Some(t) => r matches Ok((s, m, a, n)) && m.wf() && a.wf() && n.wf() && tallies_of(s, m, a, n) == t,
        },
{
    let ghost start = Tallies { summary: zero_measures(), months: buckets@, accounts: Map::empty(), rows: Map::empty() };
    let filtered = is_category_filtered(f);
    let mut summary = NumericMeasures { income: 0, expense: 0, contribution: 0 };
    let mut months = buckets;
    let mut accounts: SortedMap<NumericMeasures> = SortedMap::new();
    let mut rows: SortedMap<usize> = SortedMap::new();
    assert(tallies_of(summary, months, accounts, rows) =~= start) by {
        assert(rows_view(rows) =~= Map::empty());
    }
    let mut i: usize = 0;
    while i < txs.len()
        invariant
            i <= txs@.len(),
            filtered == category_filtered(*f),
            by_tx.wf(),
            months.wf(),
            accounts.wf(),
            rows.wf(),
            forall|q: int| 0 <= q < txs@.len() && tx_selected(#[trigger] txs@[q], *f, c@) ==> txs@[q].posted_date@.len() >= 7
                && (forall|j: int| 0 <= j < 7 ==> (txs@[q].posted_date@[j] as u32) < 128),
            forall|k: TextKey| #[trigger] rows@.contains_key(k) ==> rows@[k] <= i,
            start == (Tallies { summary: zero_measures(), months: buckets@, accounts: Map::empty(), rows: Map::empty() }),
            spec_tally_all(start, txs@.subrange(0, i as int), *f, c@, by_tx@) == Some(tallies_of(summary, months, accounts, rows)),
        decreases txs.len() - i,
    {
        let ghost pre = txs@.subrange(0, i + 1);
        assert(pre.drop_last() =~= txs@.subrange(0, i as int));
        proof {
            reveal_strlit("income");
            reveal_strlit("expense");
            reveal_strlit("investment_contribution");
        }
        let t = &txs[i];
        let selected = str_eq(t.currency.as_str(), c) && account_selected(f, &t.account_id);
        if selected {
            assert(tx_selected(txs@[i as int], *f, c@));
            let acct = match &t.account_id {
                Some(a) => a.as_str(),
                None => "",
            };
            let ak = text_key(acct);
            let chars = crate::text::to_chars(t.posted_date.as_str());
            let month = crate::text::string_of(&chars, 0, 7);
            let mk = text_key(month.as_str());
            assert(month@ == month_of(*t));
            let expense: i64 = if filtered {
                crate::investment_report::value_or_zero(by_tx, &text_key(t.id.as_str()))
            } else {
                match negated(t.amount_minor) {
                    Some(x) => x,
                    None => {
                        if str_eq(t.kind.as_str(), "expense") {
                            assert(pre.last() == *t);
                            assert(expense_of(*t, *f, by_tx@) is None);
                            assert(spec_tally_tx(tallies_of(summary, months, accounts, rows), *t, *f, by_tx@) is None);
                            assert(spec_tally_all(start, pre, *f, c@, by_tx@) is None);
                            proof { lemma_tally_none_stays(start, txs@, *f, c@, by_tx@, (i + 1) as nat); }
                            return Err(FinanceError::AmountOverflow);
                        }
                        0
                    },
                }
            };
            let s2 = match apply_kind_exec(summary, t, expense) {
                Some(x) => x,
                None => {
                    proof { lemma_tally_none_stays(start, txs@, *f, c@, by_tx@, (i + 1) as nat); }
                    return Err(FinanceError::AmountOverflow);
                },
            };
            let (mat, mcur) = measures_of(&months, &mk);
            let m2 = match apply_kind_exec(mcur, t, expense) {
                Some(x) => x,
                None => {
                    proof { lemma_tally_none_stays(start, txs@, *f, c@, by_tx@, (i + 1) as nat); }
                    return Err(FinanceError::AmountOverflow);
                },
            };
            let (aat, acur) = measures_of(&accounts, &ak);
            let a2 = match apply_kind_exec(acur, t, expense) {
                Some(x) => x,
                None => {
                    proof { lemma_tally_none_stays(start, txs@, *f, c@, by_tx@, (i + 1) as nat); }
                    return Err(FinanceError::AmountOverflow);
                },
            };
            let ak2 = crate::ordered::copy_key(&ak);
            summary = s2;
            put_measures(&mut months, mat, mk, m2);
            put_measures(&mut accounts, aat, ak, a2);
            let k = t.kind.as_str();
            let counts = (str_eq(k, "income") && t.amount_minor > 0) || (str_eq(k, "expense") && expense != 0)
                || str_eq(k, "investment_contribution");
            if counts {
                let ghost rows_before = rows;
                match rows.find(&ak2) {
                    Some(j) => {
                        proof { rows.lemma_view_at(j as int); }
                        let n = rows.entries[j].value;
                        rows.set_value(j, n + 1);
                    },
                    None => rows.insert_new(ak2, 1),
                }
                assert(rows_view(rows) =~= rows_view(rows_before).insert(tkey(t.account_id->0@),
                    rows_at(rows_view(rows_before), tkey(t.account_id->0@)) + 1));
            }
            assert(tallies_of(summary, months, accounts, rows) == spec_tally_all(start, pre, *f, c@, by_tx@)->0);
        }
        i = i + 1;
    }
    assert(txs@.subrange(0, txs@.len() as int) =~= txs@);
    Ok((summary, months, accounts, rows))
}

// ---------------------------------------------------------------------
// Sections.

pub struct MonthlyMeasures {
    pub month: String,
    pub measures: Measures,
}

pub struct CategoryBreakdown {
    pub category_id: String,
    pub category_name: String,
    pub currency: String,
    pub amount_minor: String,
}

pub struct AccountBreakdown {
    pub account_id: String,
    pub account_name: String,
    pub row_count: usize,
    pub measures: Measures,
}

/// The dashboard's measures: the summary, each month, each category and
/// each selected account.
pub struct FinanceSections {
    pub summary: Measures,
    pub monthly: Vec<MonthlyMeasures>,
    pub categories: Vec<CategoryBreakdown>,
    pub accounts: Vec<AccountBreakdown>,
}

pub open spec fn net_ok(n: NumericMeasures) -> bool {
    in_i64(n.income - n.expense)
}

/// A month bucket for each of `names`.
pub fn bucket_map(names: &Vec<String>) -> (r: SortedMap<NumericMeasures>)
    ensures
        r.wf(),
        r@ == buckets_map(crate::closing::texts(names@)),
{
    let mut m: SortedMap<NumericMeasures> = SortedMap::new();
    let mut i: usize = 0;
    while i < names.len()
        invariant
            i <= names@.len(),
            m.wf(),
            m@ == buckets_map(crate::closing::texts(names@.subrange(0, i as int))),
        decreases names.len() - i,
    {
        let k = text_key(names[i].as_str());
        let ghost t = crate::closing::texts(names@.subrange(0, i + 1));
        assert(crate::closing::texts(names@.subrange(0, i as int)) =~= t.drop_last());
        match m.find(&k) {
            Some(j) => {
                proof { m.lemma_view_at(j as int); }
                assert(m@ =~= buckets_map(t)) by {
                    assert forall|q: TextKey| #[trigger] buckets_map(t).contains_key(q) implies m@.contains_key(q) by {
                        let w = choose|w: int| 0 <= w < t.len() && q == tkey(t[w]);
                        if w < i {
                            assert(t.drop_last()[w] == t[w]);
                        }
                    }
                }
            },
            None => {
                m.insert_new(k, NumericMeasures { income: 0, expense: 0, contribution: 0 });
                assert(m@ =~= buckets_map(t)) by {
                    assert forall|q: TextKey| #[trigger] buckets_map(t).contains_key(q) implies m@.contains_key(q) by {
                        let w = choose|w: int| 0 <= w < t.len() && q == tkey(t[w]);
                        if w < i {
                            assert(t.drop_last()[w] == t[w]);
                        }
                    }
                    assert forall|q: TextKey| #[trigger] m@.contains_key(q) implies buckets_map(t).contains_key(q) by {
                        if q != kv(k) {
                            let w = choose|w: int| 0 <= w < t.drop_last().len() && q == tkey(t.drop_last()[w]);
                            assert(t[w] == t.drop_last()[w]);
                        } else {
                            assert(q == tkey(t[i as int]));
                        }
                    }
                }
            },
        }
        i = i + 1;
    }
    assert(names@.subrange(0, names@.len() as int) =~= names@);
    m
}

/// `v` shows the months of `m` in key order.
pub open spec fn monthly_of(v: Seq<MonthlyMeasures>, m: Map<TextKey, NumericMeasures>, c: Seq<char>) -> bool {
    exists|s: SortedMap<NumericMeasures>| #![trigger s.wf()] s.wf() && s@ == m && v.len() == s.entries@.len()
        && forall|i: int| 0 <= i < v.len() ==> (#[trigger] v[i]).month@ == crate::investment_report::key_part(s.key_at(i), 0)
            && shows(v[i].measures, m[s.key_at(i)], Some(c))
}

fn monthly_list(m: &SortedMap<NumericMeasures>, c: &str) -> (r: Result<Vec<MonthlyMeasures>, FinanceError>)
    requires
        m.wf(),
    ensures
        (forall|k: TextKey| #[trigger] m@.contains_key(k) ==> net_ok(m@[k])) ==> (r matches Ok(v) && monthly_of(v@, m@, c@)),
        !(forall|k: TextKey| #[trigger] m@.contains_key(k) ==> net_ok(m@[k])) ==> r == Err::<Vec<MonthlyMeasures>, FinanceError>(
            FinanceError::AmountOverflow),
{
    let mut out: Vec<MonthlyMeasures> = Vec::new();
    let mut i: usize = 0;
    while i < m.entries.len()
        invariant
            i <= m.entries@.len(),
            m.wf(),
            out@.len() == i,
            forall|q: int| 0 <= q < i ==> (#[trigger] out@[q]).month@ == crate::investment_report::key_part(m.key_at(q), 0)
                && shows(out@[q].measures, m@[m.key_at(q)], Some(c@)) && net_ok(m@[m.key_at(q)]),
        decreases m.entries.len() - i,
    {
        let e = &m.entries[i];
        proof { m.lemma_view_at(i as int); }
        let measures = match transport(e.value, Some(c)) {
            Ok(x) => x,
            Err(err) => {
                assert(!net_ok(m@[m.key_at(i as int)]));
                return Err(err);
            },
        };
        out.push(MonthlyMeasures { month: crate::investment_report::part_text(&e.key, 0), measures });
        i = i + 1;
    }
    assert forall|k: TextKey| #[trigger] m@.contains_key(k) implies net_ok(m@[k]) by {
        let q = choose|q: int| 0 <= q < m.entries@.len() && #[trigger] m.key_at(q) == k;
        let x = out@[q];
        assert(net_ok(m@[m.key_at(q)]));
    }
    Ok(out)
}

/// The name of category `id`: that of its last listing, else the id.
pub open spec fn category_name(cats: Seq<CategoryDimension>, id: Seq<char>) -> Seq<char>
    decreases cats.len(),
{
    if cats.len() == 0 {
        id
    } else if cats.last().id@ == id {
        cats.last().name@
    } else {
        category_name(cats.drop_last(), id)
    }
}

fn name_of_category(cats: &Vec<CategoryDimension>, id: &str) -> (r: String)
    ensures
        r@ == category_name(cats@, id@),
{
    let mut i: usize = cats.len();
    assert(cats@.subrange(0, i as int) =~= cats@);
    while i > 0
        invariant
            i <= cats@.len(),
            category_name(cats@, id@) == category_name(cats@.subrange(0, i as int), id@),
        decreases i,
    {
        let ghost pre = cats@.subrange(0, i as int);
        assert(pre.drop_last() =~= cats@.subrange(0, i - 1));
        if str_eq(cats[i - 1].id.as_str(), id) {
            assert(pre.last() == cats@[i - 1]);
            return cats[i - 1].name.clone();
        }
        i = i - 1;
    }
    owned(id)
}

/// `v` shows the category totals of `m` in key order.
pub open spec fn categories_of(v: Seq<CategoryBreakdown>, m: Map<TextKey, i64>, d: Dimensions, c: Seq<char>) -> bool {
    exists|s: SortedMap<i64>| #![trigger s.wf()] s.wf() && s@ == m && v.len() == s.entries@.len()
        && forall|i: int| 0 <= i < v.len() ==> {
            let id = crate::investment_report::key_part(s.key_at(i), 0);
            &&& (#[trigger] v[i]).category_id@ == id
            &&& v[i].category_name@ == category_name(d.categories@, id)
            &&& v[i].currency@ == c
            &&& v[i].amount_minor@ == int_digits(m[s.key_at(i)] as int)
        }
}

fn category_list(m: &SortedMap<i64>, d: &Dimensions, c: &str) -> (r: Vec<CategoryBreakdown>)
    requires
        m.wf(),
    ensures
        categories_of(r@, m@, *d, c@),
{
    let mut out: Vec<CategoryBreakdown> = Vec::new();
    let mut i: usize = 0;
    while i < m.entries.len()
        invariant
            i <= m.entries@.len(),
            m.wf(),
            out@.len() == i,
            forall|q: int| 0 <= q < i ==> {
                let id = crate::investment_report::key_part(m.key_at(q), 0);
                &&& (#[trigger] out@[q]).category_id@ == id
                &&& out@[q].category_name@ == category_name(d.categories@, id)
                &&& out@[q].currency@ == c@
                &&& out@[q].amount_minor@ == int_digits(m@[m.key_at(q)] as int)
            },
        decreases m.entries.len() - i,
    {
        let e = &m.entries[i];
        proof { m.lemma_view_at(i as int); }
        let id = crate::investment_report::part_text(&e.key, 0);
        let name = name_of_category(&d.categories, id.as_str());
        out.push(CategoryBreakdown { category_id: id, category_name: name, currency: owned(c), amount_minor: format_i64(e.value) });
        i = i + 1;
    }
    out
}

/// The selected accounts of the dimensions, in order, with their row
/// counts and measures.
pub open spec fn spec_accounts(accts: Seq<AccountDimension>, f: ResolvedFilters, am: Map<TextKey, NumericMeasures>, rm: Map<TextKey, nat>) -> Seq<(Seq<char>, Seq<char>, nat, NumericMeasures)>
    decreases accts.len(),
{
    if accts.len() == 0 {
        seq![]
    } else {
        let prev = spec_accounts(accts.drop_last(), f, am, rm);
        let a = accts.last();
        if crate::closing::texts(f.account_ids@).contains(a.id@) {
            prev.push((a.id@, a.name@, rows_at(rm, tkey(a.id@)), measures_at(am, tkey(a.id@))))
        } else {
            prev
        }
    }
}

pub open spec fn accounts_net_ok(accts: Seq<AccountDimension>, f: ResolvedFilters, am: Map<TextKey, NumericMeasures>) -> bool {
    forall|i: int| 0 <= i < accts.len() && crate::closing::texts(f.account_ids@).contains((#[trigger] accts[i]).id@)
        ==> net_ok(measures_at(am, tkey(accts[i].id@)))
}

pub open spec fn accounts_of(v: Seq<AccountBreakdown>, accts: Seq<AccountDimension>, f: ResolvedFilters, am: Map<TextKey, NumericMeasures>, rm: Map<TextKey, nat>, c: Seq<char>) -> bool {
    let s = spec_accounts(accts, f, am, rm);
    v.len() == s.len() && forall|i: int| 0 <= i < v.len() ==> {
        &&& (#[trigger] v[i]).account_id@ == s[i].0
        &&& v[i].account_name@ == s[i].1
        &&& v[i].row_count as nat == s[i].2
        &&& shows(v[i].measures, s[i].3, Some(c))
    }
}

fn account_list(d: &Dimensions, f: &ResolvedFilters, accounts: &SortedMap<NumericMeasures>, rows: &SortedMap<usize>, c: &str)
    -> (r: Result<Vec<AccountBreakdown>, FinanceError>)
    requires
        accounts.wf(),
        rows.wf(),
    ensures
        accounts_net_ok(d.accounts@, *f, accounts@) ==> (r matches Ok(v)
            && accounts_of(v@, d.accounts@, *f, accounts@, rows_view(*rows), c@)),
        !accounts_net_ok(d.accounts@, *f, accounts@) ==> r
            == Err::<Vec<AccountBreakdown>, FinanceError>(FinanceError::AmountOverflow),
{
    let mut out: Vec<AccountBreakdown> = Vec::new();
    let mut i: usize = 0;
    while i < d.accounts.len()
        invariant
            i <= d.accounts@.len(),
            accounts.wf(),
            rows.wf(),
            accounts_net_ok(d.accounts@.subrange(0, i as int), *f, accounts@),
            accounts_of(out@, d.accounts@.subrange(0, i as int), *f, accounts@, rows_view(*rows), c@),
        decreases d.accounts.len() - i,
    {
        let ghost pre = d.accounts@.subrange(0, i + 1);
        assert(pre.drop_last() =~= d.accounts@.subrange(0, i as int));
        let a = &d.accounts[i];
        if text_listed(&f.account_ids, a.id.as_str()) {
            let k = text_key(a.id.as_str());
            let (_, n) = measures_of(accounts, &k);
            let count: usize = match rows.find(&k) {
                Some(j) => {
                    proof { rows.lemma_view_at(j as int); }
                    rows.entries[j].value
                },
                None => 0,
            };
            let measures = match transport(n, Some(c)) {
                Ok(x) => x,
                Err(e) => {
                    assert(!accounts_net_ok(d.accounts@, *f, accounts@)) by {
                        assert(d.accounts@[i as int] == *a);
                    }
                    return Err(e);
                },
            };
            out.push(AccountBreakdown { account_id: a.id.clone(), account_name: a.name.clone(), row_count: count, measures });
        }
        assert(accounts_net_ok(pre, *f, accounts@)) by {
            assert forall|q: int| 0 <= q < pre.len() && crate::closing::texts(f.account_ids@).contains((#[trigger] pre[q]).id@)
                implies net_ok(measures_at(accounts@, tkey(pre[q].id@))) by {
                if q < i {
                    assert(pre[q] == d.accounts@.subrange(0, i as int)[q]);
                }
            }
        }
        i = i + 1;
    }
    assert(d.accounts@.subrange(0, d.accounts@.len() as int) =~= d.accounts@);
    Ok(out)
}

/// What the dashboard aggregates: nothing where a line amount overflows;
/// else the month buckets (when the range's months can be stepped
/// through) and the tallies from them.
pub open spec fn spec_aggregate(txs: Seq<TransactionRow>, lines: Seq<ExpenseLineRow>, f: ResolvedFilters, c: Seq<char>)
    -> Result<(Map<TextKey, i64>, Tallies), FinanceError> {
    match spec_lines(lines, f, c) {
        None => Err(FinanceError::AmountOverflow),
        Some((bt, bc)) => if spec_months(f.start_date@, f.end_date@) is None {
            Err(FinanceError::InvalidDate)
        } else if reaches_last_month(f.start_date@, f.end_date@) {
            Err(FinanceError::DateRangeOverflow)
        } else {
            let start = Tallies {
                summary: zero_measures(),
                months: buckets_map(spec_months(f.start_date@, f.end_date@)->0),
                accounts: Map::empty(),
                rows: Map::empty(),
            };
            match spec_tally_all(start, txs, f, c, bt) {
                None => Err(FinanceError::AmountOverflow),
                Some(t) => Ok((bc, t)),
            }
        },
    }
}

/// Income, consumption expense and contribution totals of the measures at
/// `keys`.
pub open spec fn keyed_totals(m: Map<TextKey, NumericMeasures>, keys: Seq<TextKey>) -> (int, int, int)
    decreases keys.len(),
{
    if keys.len() == 0 {
        (0, 0, 0)
    } else {
        let r = keyed_totals(m, keys.drop_last());
        let x = measures_at(m, keys.last());
        (r.0 + x.income, r.1 + x.expense, r.2 + x.contribution)
    }
}

pub open spec fn measure_totals(n: NumericMeasures) -> (int, int, int) {
    (n.income as int, n.expense as int, n.contribution as int)
}

proof fn lemma_keyed_totals_zero(m: Map<TextKey, NumericMeasures>, keys: Seq<TextKey>)
    requires
        forall|k: TextKey| #[trigger] m.contains_key(k) ==> m[k] == zero_measures(),
    ensures
        keyed_totals(m, keys) == (0int, 0int, 0int),
    decreases keys.len(),
{
    if keys.len() > 0 {
        lemma_keyed_totals_zero(m, keys.drop_last());
    }
}

proof fn lemma_keyed_totals_update(m: Map<TextKey, NumericMeasures>, keys: Seq<TextKey>, k: TextKey, v: NumericMeasures)
    requires
        keys.no_duplicates(),
    ensures
        ({
            let before = keyed_totals(m, keys);
            let after = keyed_totals(m.insert(k, v), keys);
            let old_v = measures_at(m, k);
            if keys.contains(k) {
                after == (before.0 + v.income - old_v.income, before.1 + v.expense - old_v.expense, before.2
                    + v.contribution - old_v.contribution)
            } else {
                after == before
            }
        }),
    decreases keys.len(),
{
    if keys.len() > 0 {
        let rest = keys.drop_last();
        assert(rest.no_duplicates());
        lemma_keyed_totals_update(m, rest, k, v);
        if keys.last() == k {
            assert(!rest.contains(k)) by {
                if rest.contains(k) {
                    let j = choose|j: int| 0 <= j < rest.len() && rest[j] == k;
                    assert(keys[j] == keys[keys.len() - 1]);
                }
            }
        } else {
            assert(keys.contains(k) == rest.contains(k)) by {
                if keys.contains(k) {
                    let j = choose|j: int| 0 <= j < keys.len() && keys[j] == k;
                    assert(j < keys.len() - 1);
                    assert(rest[j] == k);
                }
                if rest.contains(k) {
                    let j = choose|j: int| 0 <= j < rest.len() && rest[j] == k;
                    assert(keys[j] == k);
                }
            }
        }
    }
}

proof fn lemma_apply_kind_delta(a: NumericMeasures, b: NumericMeasures, t: TransactionRow, e: int)
    requires
        apply_kind(a, t, e) is Some,
        apply_kind(b, t, e) is Some,
    ensures
        apply_kind(a, t, e)->0.income - a.income == apply_kind(b, t, e)->0.income - b.income,
        apply_kind(a, t, e)->0.expense - a.expense == apply_kind(b, t, e)->0.expense - b.expense,
        apply_kind(a, t, e)->0.contribution - a.contribution == apply_kind(b, t, e)->0.contribution - b.contribution,
{
}

/// The month tallies and the account tallies each add up to the summary:
/// tallying a selected transaction adds the same amounts to the summary,
/// to its month and to its account.  `months` and `accounts` list each key
/// once and hold the month and the account of every selected transaction.
pub proof fn law_tallies_add_up(
    st: Tallies,
    txs: Seq<TransactionRow>,
    f: ResolvedFilters,
    c: Seq<char>,
    by_tx: Map<TextKey, i64>,
    months: Seq<TextKey>,
    accounts: Seq<TextKey>,
)
    requires
        months.no_duplicates(),
        accounts.no_duplicates(),
        forall|i: int| 0 <= i < txs.len() && tx_selected(#[trigger] txs[i], f, c) ==> months.contains(tkey(month_of(txs[i])))
            && accounts.contains(tkey(txs[i].account_id->0@)),
        keyed_totals(st.months, months) == measure_totals(st.summary),
        keyed_totals(st.accounts, accounts) == measure_totals(st.summary),
    ensures
        spec_tally_all(st, txs, f, c, by_tx) matches Some(t) ==> keyed_totals(t.months, months) == measure_totals(t.summary)
            && keyed_totals(t.accounts, accounts) == measure_totals(t.summary),
    decreases txs.len(),
{
    if txs.len() > 0 {
        let pre = txs.drop_last();
        assert forall|i: int| 0 <= i < pre.len() && tx_selected(#[trigger] pre[i], f, c) implies months.contains(
            tkey(month_of(pre[i]))) && accounts.contains(tkey(pre[i].account_id->0@)) by {
            assert(pre[i] == txs[i]);
        }
        law_tallies_add_up(st, pre, f, c, by_tx, months, accounts);
        if let Some(s) = spec_tally_all(st, pre, f, c, by_tx) {
            let t = txs.last();
            if tx_selected(t, f, c) {
                assert(txs[txs.len() - 1] == t);
                let a = tkey(t.account_id->0@);
                let mk = tkey(month_of(t));
                let e: int = match expense_of(t, f, by_tx) {
                    Some(x) => x,
                    None => 0,
                };
                if let Some(n) = spec_tally_tx(s, t, f, by_tx) {
                    assert(spec_tally_with(s, t, a, mk, e) == Some(n));
                    let ms = apply_kind(s.summary, t, e)->0;
                    let mm = apply_kind(measures_at(s.months, mk), t, e)->0;
                    let ma = apply_kind(measures_at(s.accounts, a), t, e)->0;
                    lemma_apply_kind_delta(s.summary, measures_at(s.months, mk), t, e);
                    lemma_apply_kind_delta(s.summary, measures_at(s.accounts, a), t, e);
                    lemma_keyed_totals_update(s.months, months, mk, mm);
                    lemma_keyed_totals_update(s.accounts, accounts, a, ma);
                }
            }
        }
    }
}

/// The tallies behind a dashboard add up: the month tallies and the
/// account tallies each total the summary (see `law_tallies_add_up`).
pub proof fn law_dashboard_tallies_add_up(
    txs: Seq<TransactionRow>,
    lines: Seq<ExpenseLineRow>,
    f: ResolvedFilters,
    c: Seq<char>,
    months: Seq<TextKey>,
    accounts: Seq<TextKey>,
)
    requires
        months.no_duplicates(),
        accounts.no_duplicates(),
        forall|i: int| 0 <= i < txs.len() && tx_selected(#[trigger] txs[i], f, c) ==> months.contains(tkey(month_of(txs[i])))
            && accounts.contains(tkey(txs[i].account_id->0@)),
    ensures
        spec_aggregate(txs, lines, f, c) matches Ok((bc, t)) ==> keyed_totals(t.months, months) == measure_totals(t.summary)
            && keyed_totals(t.accounts, accounts) == measure_totals(t.summary),
{
    if let Some((bt, bc)) = spec_lines(lines, f, c) {
        if spec_months(f.start_date@, f.end_date@) is Some && !reaches_last_month(f.start_date@, f.end_date@) {
            let start = Tallies {
                summary: zero_measures(),
                months: buckets_map(spec_months(f.start_date@, f.end_date@)->0),
                accounts: Map::empty(),
                rows: Map::empty(),
            };
            lemma_keyed_totals_zero(start.months, months);
            lemma_keyed_totals_zero(start.accounts, accounts);
            law_tallies_add_up(start, txs, f, c, bt, months, accounts);
        }
    }
}

/// The sections shown for the category totals `bc` and tallies `t`.
pub open spec fn sections_of(r: FinanceSections, bc: Map<TextKey, i64>, t: Tallies, f: ResolvedFilters, d: Dimensions, c: Seq<char>) -> bool {
    &&& shows(r.summary, t.summary, Some(c))
    &&& monthly_of(r.monthly@, t.months, c)
    &&& categories_of(r.categories@, bc, d, c)
    &&& accounts_of(r.accounts@, d.accounts@, f, t.accounts, t.rows, c)
}

pub open spec fn all_net_ok(t: Tallies, f: ResolvedFilters, d: Dimensions) -> bool {
    &&& net_ok(t.summary)
    &&& forall|k: TextKey| #[trigger] t.months.contains_key(k) ==> net_ok(t.months[k])
    &&& accounts_net_ok(d.accounts@, f, t.accounts)
}

/// Aggregates the transactions and lines of the range for the resolved
/// filters (see `spec_aggregate` and `sections_of`); every amount shown
/// must fit `i64`.
pub fn aggregate(txs: &Vec<TransactionRow>, lines: &Vec<ExpenseLineRow>, f: &ResolvedFilters, d: &Dimensions)
    -> (r: Result<FinanceSections, FinanceError>)
    requires
        f.currency is Some,
        spec_months(f.start_date@, f.end_date@) matches Some(names) ==> months_known(txs@, *f, f.currency->0@, names),
    ensures
        match spec_aggregate(txs@, lines@, *f, f.currency->0@) {
            Err(e) => r == Err::<FinanceSections, FinanceError>(e),
            Ok((bc, t)) => if all_net_ok(t, *f, *d) {
                r matches Ok(sec) && sections_of(sec, bc, t, *f, *d, f.currency->0@)
            } else {
                r == Err::<FinanceSections, FinanceError>(FinanceError::AmountOverflow)
            },
        },
{
    let c = match &f.currency {
        Some(c) => c.as_str(),
        None => "",
    };
    let (bt, bc) = match tally_lines(lines, f, c) {
        Ok(x) => x,
        Err(e) => return Err(e),
    };
    let names = match month_buckets(f.start_date.as_str(), f.end_date.as_str()) {
        Ok(v) => v,
        Err(e) => return Err(e),
    };
    let buckets = bucket_map(&names);
    proof {
        assert forall|i: int| 0 <= i < txs@.len() && tx_selected(#[trigger] txs@[i], *f, c@) implies txs@[i].posted_date@.len() >= 7
            && (forall|j: int| 0 <= j < 7 ==> (txs@[i].posted_date@[j] as u32) < 128) by {
            assert(months_known(txs@, *f, c@, crate::closing::texts(names@)));
        }
    }
    let (summary, months, accounts, rows) = match tally_transactions(txs, f, c, &bt, buckets) {
        Ok(x) => x,
        Err(e) => return Err(e),
    };
    let monthly = match monthly_list(&months, c) {
        Ok(v) => v,
        Err(e) => return Err(e),
    };
    let categories = category_list(&bc, d, c);
    let account_rows = match account_list(d, f, &accounts, &rows, c) {
        Ok(v) => v,
        Err(e) => return Err(e),
    };
    let summary_text = match transport(summary, Some(c)) {
        Ok(m) => m,
        Err(e) => return Err(e),
    };
    Ok(FinanceSections { summary: summary_text, monthly, categories, accounts: account_rows })
}

// ---------------------------------------------------------------------
// The dashboard response.

pub struct InvestmentFlow {
    pub account_id: String,
    pub currency: String,
    pub amount_minor: String,
}

/// A position as the dashboard shows it.
pub struct DashboardPosition {
    pub account_id: String,
    pub instrument_id: Option<String>,
    pub instrument_type: Option<String>,
    pub quantity: Option<String>,
    pub historical_cost_minor: Option<String>,
    pub cost_currency: Option<String>,
    pub observed_value_minor: Option<String>,
    pub valuation_currency: Option<String>,
    pub effective_date: Option<String>,
    pub observed_at: Option<String>,
    pub age_days: Option<i64>,
    pub freshness: String,
    pub reconciliation_status: String,
    pub quantity_difference: Option<String>,
    pub value_difference_minor: Option<String>,
}

pub struct InvestmentSection {
    pub flows: Vec<InvestmentFlow>,
    pub closing_positions: Vec<DashboardPosition>,
}

pub struct DashboardAlert {
    pub kind: String,
    pub severity: String,
    pub account_id: String,
    pub instrument_id: Option<String>,
    pub currency: String,
    pub effective_date: Option<String>,
    pub observed_at: Option<String>,
    pub age_days: Option<i64>,
    pub quantity_difference: Option<String>,
    pub value_difference_minor: Option<String>,
}

pub struct DashboardError {
    pub code: String,
    pub path: String,
}

/// The finance dashboard's answer.
pub struct DashboardResponse {
    pub schema_version: String,
    pub ok: bool,
    pub read_at: String,
    pub state: String,
    pub filters: ResolvedFilters,
    pub dimensions: Dimensions,
    pub summary: Measures,
    pub monthly: Vec<MonthlyMeasures>,
    pub categories: Vec<CategoryBreakdown>,
    pub accounts: Vec<AccountBreakdown>,
    pub investments: InvestmentSection,
    pub alerts: Vec<DashboardAlert>,
    pub errors: Vec<DashboardError>,
}

/// Some ids were asked for and none of them fits the currency, or an empty
/// list was asked for.
pub open spec fn asked_empty(requested: Option<Vec<String>>, resolved: Seq<String>) -> bool {
    match requested {
        Some(ids) => ids@.len() == 0 || resolved.len() == 0,
        None => false,
    }
}

/// The dashboard's state: `empty` without a currency, `filter_empty` when
/// the requested accounts or categories select nothing, else `ready`.
pub open spec fn spec_state(request: FinanceFilterRequest, f: ResolvedFilters) -> Seq<char> {
    if f.currency is None {
        "empty"@
    } else if asked_empty(request.account_ids, f.account_ids@) || asked_empty(request.category_ids, f.category_ids@) {
        "filter_empty"@
    } else {
        "ready"@
    }
}

/// What the dashboard answers for the resolved filters `f`.
pub open spec fn finance_outcome(r: Result<DashboardResponse, FinanceError>, f: ResolvedFilters, request: FinanceFilterRequest,
    d: Dimensions, txs: Seq<TransactionRow>, lines: Seq<ExpenseLineRow>, read_at: Seq<char>) -> bool {
    let st = spec_state(request, f);
    let base = |x: DashboardResponse| {
        &&& x.schema_version@ == dashboard_schema()
        &&& x.ok
        &&& x.read_at@ == read_at
        &&& x.state@ == st
        &&& x.filters == f
        &&& x.dimensions == d
        &&& x.investments.flows@.len() == 0
        &&& x.investments.closing_positions@.len() == 0
        &&& x.alerts@.len() == 0
        &&& x.errors@.len() == 0
    };
    if st == "ready"@ {
        match spec_aggregate(txs, lines, f, f.currency->0@) {
            Err(e) => r == Err::<DashboardResponse, FinanceError>(e),
            Ok((bc, t)) => if all_net_ok(t, f, d) {
                r matches Ok(x) && base(x) && sections_of(FinanceSections { summary: x.summary, monthly: x.monthly,
                    categories: x.categories, accounts: x.accounts }, bc, t, f, d, f.currency->0@)
            } else {
                r == Err::<DashboardResponse, FinanceError>(FinanceError::AmountOverflow)
            },
        }
    } else if st == "filter_empty"@ {
        if spec_months(f.start_date@, f.end_date@) is None {
            r == Err::<DashboardResponse, FinanceError>(FinanceError::InvalidDate)
        } else if reaches_last_month(f.start_date@, f.end_date@) {
            r == Err::<DashboardResponse, FinanceError>(FinanceError::DateRangeOverflow)
        } else {
            r matches Ok(x) && base(x) && shows(x.summary, zero_measures(), opt_seq(f.currency))
                && monthly_of(x.monthly@, buckets_map(spec_months(f.start_date@, f.end_date@)->0), f.currency->0@)
                && x.categories@.len() == 0 && x.accounts@.len() == 0
        }
    } else {
        r matches Ok(x) && base(x) && shows(x.summary, zero_measures(), opt_seq(f.currency))
            && x.monthly@.len() == 0 && x.categories@.len() == 0 && x.accounts@.len() == 0
    }
}

fn empty_investments() -> (r: InvestmentSection)
    ensures
        r.flows@.len() == 0,
        r.closing_positions@.len() == 0,
{
    InvestmentSection { flows: Vec::new(), closing_positions: Vec::new() }
}

fn asked_nothing(requested: &Option<Vec<String>>, resolved: &Vec<String>) -> (r: bool)
    ensures
        r == asked_empty(*requested, resolved@),
{
    match requested {
        Some(ids) => ids.len() == 0 || resolved.len() == 0,
        None => false,
    }
}

/// What the dashboard answers a request: a range error, an unavailable
/// currency, or `finance_outcome` for the filters resolved.
pub open spec fn finance_result(r: Result<DashboardResponse, FinanceError>, request: FinanceFilterRequest, txs: Seq<TransactionRow>,
    lines: Seq<ExpenseLineRow>, d: Dimensions, read_at: Seq<char>) -> bool {
    &&& !spec_valid_range(request.start_date@, request.end_date@) ==> r == Err::<DashboardResponse, FinanceError>(
        range_error(request.start_date@, request.end_date@))
    &&& spec_valid_range(request.start_date@, request.end_date@) ==> match spec_currency(request, d) {
        Err(e) => r == Err::<DashboardResponse, FinanceError>(e),
        Ok(cur) => exists|f: ResolvedFilters| #![trigger resolved(f, request, d, cur)] resolved(f, request, d, cur)
            && finance_outcome(r, f, request, d, txs, lines, read_at),
    }
}

/// The transactions' month prefixes are known for any resolution of the
/// request's filters.
pub open spec fn request_months_known(request: FinanceFilterRequest, txs: Seq<TransactionRow>) -> bool {
    forall|f: ResolvedFilters| f.currency is Some && spec_months(f.start_date@, f.end_date@) is Some && f.start_date
        == request.start_date && f.end_date == request.end_date ==> #[trigger] months_known(txs, f, f.currency->0@,
        spec_months(f.start_date@, f.end_date@)->0)
}

fn respond(read_at: String, state: String, filters: ResolvedFilters, d: Dimensions, sections: FinanceSections) -> (r: DashboardResponse)
    ensures
        r.schema_version@ == dashboard_schema(),
        r.ok,
        r.read_at == read_at,
        r.state == state,
        r.filters == filters,
        r.dimensions == d,
        r.summary == sections.summary,
        r.monthly == sections.monthly,
        r.categories == sections.categories,
        r.accounts == sections.accounts,
        r.investments.flows@.len() == 0,
        r.investments.closing_positions@.len() == 0,
        r.alerts@.len() == 0,
        r.errors@.len() == 0,
{
    proof { reveal_strlit("tracky.dashboard.v1"); }
    DashboardResponse {
        schema_version: owned("tracky.dashboard.v1"),
        ok: true,
        read_at,
        state,
        filters,
        dimensions: d,
        summary: sections.summary,
        monthly: sections.monthly,
        categories: sections.categories,
        accounts: sections.accounts,
        investments: empty_investments(),
        alerts: Vec::new(),
        errors: Vec::new(),
    }
}

/// The finance dashboard for a request (see `finance_outcome`): the range
/// must be valid and the requested currency available; `read_at` is when
/// it was read.
pub fn read_finance(
    request: &FinanceFilterRequest,
    txs: &Vec<TransactionRow>,
    lines: &Vec<ExpenseLineRow>,
    d: Dimensions,
    read_at: String,
) -> (r: Result<DashboardResponse, FinanceError>)
    requires
        request_months_known(*request, txs@),
    ensures
        finance_result(r, *request, txs@, lines@, d, read_at@),
{
    match validate_range(request.start_date.as_str(), request.end_date.as_str()) {
        Ok(()) => {},
        Err(e) => return Err(e),
    }
    let filters = match resolve_filters(request, &d) {
        Ok(f) => f,
        Err(e) => return Err(e),
    };
    let ghost cur = spec_currency(*request, d)->Ok_0;
    let ghost fv = filters;
    let ghost dv = d;
    assert(resolved(fv, *request, dv, cur));
    let filter_empty = filters.currency.is_some()
        && (asked_nothing(&request.account_ids, &filters.account_ids) || asked_nothing(&request.category_ids, &filters.category_ids));
    proof {
        reveal_strlit("empty");
        reveal_strlit("filter_empty");
        reveal_strlit("ready");
        reveal_strlit("tracky.dashboard.v1");
    }
    if filters.currency.is_none() {
        let z = match transport(NumericMeasures { income: 0, expense: 0, contribution: 0 }, None) {
            Ok(m) => m,
            Err(e) => return Err(e),
        };
        let r = respond(read_at, owned("empty"), filters, d, FinanceSections { summary: z, monthly: Vec::new(),
            categories: Vec::new(), accounts: Vec::new() });
        assert(spec_state(*request, fv) == "empty"@);
        assert("empty"@[0] != "ready"@[0]);
        assert(finance_outcome(Ok(r), fv, *request, dv, txs@, lines@, read_at@));
        return Ok(r);
    }
    if filter_empty {
        let c = match &filters.currency {
            Some(c) => c.as_str(),
            None => "",
        };
        assert(spec_state(*request, fv) == "filter_empty"@);
        let names = match month_buckets(filters.start_date.as_str(), filters.end_date.as_str()) {
            Ok(v) => v,
            Err(e) => {
                assert(finance_outcome(Err(e), fv, *request, dv, txs@, lines@, read_at@));
                return Err(e);
            },
        };
        let buckets = bucket_map(&names);
        assert forall|k: TextKey| #[trigger] buckets@.contains_key(k) implies net_ok(buckets@[k]) by {
            assert(buckets@[k] == zero_measures());
        }
        let monthly = match monthly_list(&buckets, c) {
            Ok(v) => v,
            Err(e) => return Err(e),
        };
        let z = match transport(NumericMeasures { income: 0, expense: 0, contribution: 0 }, Some(c)) {
            Ok(m) => m,
            Err(e) => return Err(e),
        };
        let r = respond(read_at, owned("filter_empty"), filters, d, FinanceSections { summary: z, monthly,
            categories: Vec::new(), accounts: Vec::new() });
        assert(finance_outcome(Ok(r), fv, *request, dv, txs@, lines@, read_at@));
        return Ok(r);
    }
    assert(spec_state(*request, fv) == "ready"@);
    let sections = match aggregate(txs, lines, &filters, &d) {
        Ok(s) => s,
        Err(e) => {
            assert(finance_outcome(Err(e), fv, *request, dv, txs@, lines@, read_at@));
            return Err(e);
        },
    };
    let ghost sv = sections;
    let r = respond(read_at, owned("ready"), filters, d, sections);
    assert(FinanceSections { summary: r.summary, monthly: r.monthly, categories: r.categories, accounts: r.accounts } == sv);
    assert(finance_outcome(Ok(r), fv, *request, dv, txs@, lines@, read_at@));
    Ok(r)
}


/// Every transaction's date starts with seven ASCII characters that name
/// one of the months `names`.
pub open spec fn rows_in_months(txs: Seq<TransactionRow>, names: Seq<Seq<char>>) -> bool {
    forall|i: int| 0 <= i < txs.len() ==> {
        &&& (#[trigger] txs[i]).posted_date@.len() >= 7
        &&& (forall|j: int| 0 <= j < 7 ==> (txs[i].posted_date@[j] as u32) < 128)
        &&& names.contains(month_of(txs[i]))
    }
}

/// `d` is what `dimensions_from` makes of these rows, accounts and
/// instruments.
pub open spec fn made_dimensions(
    d: Dimensions,
    txs: Seq<TransactionRow>,
    lines: Seq<ExpenseLineRow>,
    accounts: Vec<AccountDimension>,
    instruments: Vec<InstrumentDimension>,
) -> bool {
    &&& sorted_set(crate::closing::texts(d.currencies@), txs.map_values(|t: TransactionRow| t.currency@).to_set())
    &&& d.accounts == accounts
    &&& d.instruments == instruments
    &&& category_dimensions_of(lines, d.categories@)
}

/// The dashboard read from the rows of a range: an invalid range, a range
/// that reaches `chrono`'s last month, or a transaction dated outside the
/// range's months is refused; otherwise it is `read_finance` over the
/// dimensions these rows make.
pub open spec fn snapshot_result(
    r: Result<DashboardResponse, FinanceError>,
    request: FinanceFilterRequest,
    txs: Seq<TransactionRow>,
    lines: Seq<ExpenseLineRow>,
    accounts: Vec<AccountDimension>,
    instruments: Vec<InstrumentDimension>,
    read_at: Seq<char>,
) -> bool {
    if !spec_valid_range(request.start_date@, request.end_date@) {
        r == Err::<DashboardResponse, FinanceError>(range_error(request.start_date@, request.end_date@))
    } else if reaches_last_month(request.start_date@, request.end_date@) {
        r == Err::<DashboardResponse, FinanceError>(FinanceError::DateRangeOverflow)
    } else if !rows_in_months(txs, spec_months(request.start_date@, request.end_date@)->0) {
        r == Err::<DashboardResponse, FinanceError>(FinanceError::UnreadableData)
    } else {
        exists|d: Dimensions| #![trigger made_dimensions(d, txs, lines, accounts, instruments)]
            made_dimensions(d, txs, lines, accounts, instruments) && finance_result(r, request, txs, lines, d, read_at)
    }
}

fn row_in_months(t: &TransactionRow, names: &Vec<String>) -> (r: bool)
    ensures
        r == (t.posted_date@.len() >= 7 && (forall|j: int| 0 <= j < 7 ==> (t.posted_date@[j] as u32) < 128)
            && crate::closing::texts(names@).contains(month_of(*t))),
{
    let chars = crate::text::to_chars(t.posted_date.as_str());
    if chars.len() < 7 {
        return false;
    }
    let mut j: usize = 0;
    while j < 7
        invariant
            j <= 7,
            chars@ == t.posted_date@,
            chars@.len() >= 7,
            forall|k: int| 0 <= k < j ==> (chars@[k] as u32) < 128,
        decreases 7 - j,
    {
        if (chars[j] as u32) >= 128 {
            return false;
        }
        j = j + 1;
    }
    let month = crate::text::string_of(&chars, 0, 7);
    assert(month@ == month_of(*t));
    text_listed(names, month.as_str())
}

/// The checks before a dashboard is read from rows: the range is valid,
/// does not reach `chrono`'s last month, and holds every row's month.
pub open spec fn rows_check(start: Seq<char>, end: Seq<char>, txs: Seq<TransactionRow>) -> Result<(), FinanceError> {
    if !spec_valid_range(start, end) {
        Err(range_error(start, end))
    } else if reaches_last_month(start, end) {
        Err(FinanceError::DateRangeOverflow)
    } else if !rows_in_months(txs, spec_months(start, end)->0) {
        Err(FinanceError::UnreadableData)
    } else {
        Ok(())
    }
}

fn check_rows(request: &FinanceFilterRequest, txs: &Vec<TransactionRow>) -> (r: Result<(), FinanceError>)
    ensures
        r == rows_check(request.start_date@, request.end_date@, txs@),
        r is Ok ==> request_months_known(*request, txs@),
{
    match validate_range(request.start_date.as_str(), request.end_date.as_str()) {
        Ok(()) => {},
        Err(e) => return Err(e),
    }
    let names = match month_buckets(request.start_date.as_str(), request.end_date.as_str()) {
        Ok(v) => v,
        Err(e) => return Err(e),
    };
    let ghost months = crate::closing::texts(names@);
    let mut i: usize = 0;
    while i < txs.len()
        invariant
            i <= txs.len(),
            months == crate::closing::texts(names@),
            spec_valid_range(request.start_date@, request.end_date@),
            !reaches_last_month(request.start_date@, request.end_date@),
            spec_months(request.start_date@, request.end_date@) == Some(months),
            forall|k: int| 0 <= k < i ==> {
                &&& (#[trigger] txs@[k]).posted_date@.len() >= 7
                &&& (forall|j: int| 0 <= j < 7 ==> (txs@[k].posted_date@[j] as u32) < 128)
                &&& months.contains(month_of(txs@[k]))
            },
        decreases txs.len() - i,
    {
        if !row_in_months(&txs[i], &names) {
            assert(!rows_in_months(txs@, months)) by {
                assert(txs@[i as int] == txs[i as int]);
            }
            return Err(FinanceError::UnreadableData);
        }
        i = i + 1;
    }
    assert(rows_in_months(txs@, months));
    assert(request_months_known(*request, txs@)) by {
        assert forall|f: ResolvedFilters| f.currency is Some && spec_months(f.start_date@, f.end_date@) is Some
            && f.start_date == request.start_date && f.end_date == request.end_date implies #[trigger] months_known(
            txs@, f, f.currency->0@, spec_months(f.start_date@, f.end_date@)->0) by {
            assert(spec_months(f.start_date@, f.end_date@)->0 == months);
        }
    }
    Ok(())
}

/// The finance dashboard read from the rows of the requested range (see
/// `snapshot_result`): the dimensions are made from the same rows, and
/// every transaction must fall in one of the range's months.
pub fn finance_snapshot(
    request: &FinanceFilterRequest,
    txs: &Vec<TransactionRow>,
    lines: &Vec<ExpenseLineRow>,
    accounts: Vec<AccountDimension>,
    instruments: Vec<InstrumentDimension>,
    read_at: String,
) -> (r: Result<DashboardResponse, FinanceError>)
    ensures
        snapshot_result(r, *request, txs@, lines@, accounts, instruments, read_at@),
{
    match check_rows(request, txs) {
        Ok(()) => {},
        Err(e) => return Err(e),
    }
    let d = dimensions_from(txs, lines, accounts, instruments);
    let ghost dv = d;
    let r = read_finance(request, txs, lines, d, read_at);
    assert(made_dimensions(dv, txs@, lines@, accounts, instruments));
    r
}

// ---------------------------------------------------------------------
// Drill-down.

/// The measure whose rows a drill-down lists.
#[derive(Debug, Clone, Copy, PartialEq, Eq, Structural)]
pub enum DrillMetric {
    Activity,
    Income,
    ConsumptionExpense,
    NetCashFlow,
    InvestmentContribution,
}

pub open spec fn metric_name(m: DrillMetric) -> Seq<char> {
    match m {
        DrillMetric::Activity => "activity"@,
        DrillMetric::Income => "income"@,
        DrillMetric::ConsumptionExpense => "consumption_expense"@,
        DrillMetric::NetCashFlow => "net_cash_flow"@,
        DrillMetric::InvestmentContribution => "investment_contribution"@,
    }
}

impl DrillMetric {
    pub fn name(self) -> (r: &'static str)
        ensures
            r@ == metric_name(self),
    {
        match self {
            DrillMetric::Activity => "activity",
            DrillMetric::Income => "income",
            DrillMetric::ConsumptionExpense => "consumption_expense",
            DrillMetric::NetCashFlow => "net_cash_flow",
            DrillMetric::InvestmentContribution => "investment_contribution",
        }
    }
}

/// Whether a canonical transaction of `kind` and `amount` is one of the
/// metric's rows.
pub open spec fn includes_canonical(m: DrillMetric, kind: Seq<char>, amount: i64, category_filtered: bool) -> bool {
    match m {
        DrillMetric::Activity => !category_filtered || kind != "expense"@,
        DrillMetric::Income => kind == "income"@ && amount > 0,
        DrillMetric::ConsumptionExpense => kind == "expense"@ && !category_filtered,
        DrillMetric::NetCashFlow => (kind == "income"@ || kind == "expense"@) && (!category_filtered || kind != "expense"@),
        DrillMetric::InvestmentContribution => kind == "investment_contribution"@,
    }
}

pub open spec fn includes_expense_lines(m: DrillMetric) -> bool {
    m == DrillMetric::Activity || m == DrillMetric::ConsumptionExpense || m == DrillMetric::NetCashFlow
}

fn canonical_included(m: DrillMetric, kind: &str, amount: i64, filtered: bool) -> (r: bool)
    ensures
        r == includes_canonical(m, kind@, amount, filtered),
{
    match m {
        DrillMetric::Activity => !filtered || !str_eq(kind, "expense"),
        DrillMetric::Income => str_eq(kind, "income") && amount > 0,
        DrillMetric::ConsumptionExpense => str_eq(kind, "expense") && !filtered,
        DrillMetric::NetCashFlow => (str_eq(kind, "income") || str_eq(kind, "expense")) && (!filtered || !str_eq(kind, "expense")),
        DrillMetric::InvestmentContribution => str_eq(kind, "investment_contribution"),
    }
}

/// A drill-down request.
#[derive(Debug, Clone)]
pub struct DrillRequest {
    pub filters: FinanceFilterRequest,
    pub metric: DrillMetric,
    pub month: Option<String>,
    pub cursor: Option<String>,
    pub limit: usize,
}

/// One row of a drill-down: a canonical transaction or an expense line.
pub struct DrillRow {
    pub row_type: String,
    pub id: String,
    pub canonical_transaction_id: String,
    pub posted_date: String,
    pub account_id: Option<String>,
    pub description: String,
    pub transaction_kind: String,
    pub category_id: Option<String>,
    pub amount_minor: String,
    pub currency: String,
}

pub struct DrillResponse {
    pub schema_version: String,
    pub ok: bool,
    pub filters: ResolvedFilters,
    pub metric: String,
    pub rows: Vec<DrillRow>,
    pub next_cursor: Option<String>,
    pub errors: Vec<DashboardError>,
}

pub struct DrillRowView {
    pub row_type: Seq<char>,
    pub id: Seq<char>,
    pub canonical_transaction_id: Seq<char>,
    pub posted_date: Seq<char>,
    pub account_id: Option<Seq<char>>,
    pub description: Seq<char>,
    pub transaction_kind: Seq<char>,
    pub category_id: Option<Seq<char>>,
    pub amount_minor: Seq<char>,
    pub currency: Seq<char>,
}

pub open spec fn row_view(r: DrillRow) -> DrillRowView {
    DrillRowView {
        row_type: r.row_type@,
        id: r.id@,
        canonical_transaction_id: r.canonical_transaction_id@,
        posted_date: r.posted_date@,
        account_id: opt_seq(r.account_id),
        description: r.description@,
        transaction_kind: r.transaction_kind@,
        category_id: opt_seq(r.category_id),
        amount_minor: r.amount_minor@,
        currency: r.currency@,
    }
}

pub open spec fn rows_view_of(v: Seq<DrillRow>) -> Seq<DrillRowView> {
    v.map_values(|r: DrillRow| row_view(r))
}

pub open spec fn in_month(date: Seq<char>, month: Option<String>) -> bool {
    match month {
        Some(m) => m@.len() <= date.len() && date.subrange(0, m@.len() as int) == m@,
        None => true,
    }
}

pub open spec fn canonical_row(t: TransactionRow) -> DrillRowView {
    DrillRowView {
        row_type: "canonical_transaction"@,
        id: t.id@,
        canonical_transaction_id: t.id@,
        posted_date: t.posted_date@,
        account_id: opt_seq(t.account_id),
        description: t.description@,
        transaction_kind: t.kind@,
        category_id: None,
        amount_minor: int_digits(t.amount_minor as int),
        currency: t.currency@,
    }
}

pub open spec fn line_row(l: ExpenseLineRow) -> DrillRowView {
    DrillRowView {
        row_type: "expense_line"@,
        id: l.id@,
        canonical_transaction_id: l.transaction_id@,
        posted_date: l.posted_date@,
        account_id: opt_seq(l.account_id),
        description: l.description@,
        transaction_kind: "expense"@,
        category_id: Some(l.category_id@),
        amount_minor: int_digits(l.amount_minor as int),
        currency: l.currency@,
    }
}

/// The transactions in the dashboard's currency, accounts and month that
/// the metric lists.
pub open spec fn canonical_rows(txs: Seq<TransactionRow>, f: ResolvedFilters, m: DrillMetric, month: Option<String>) -> Seq<DrillRowView>
    decreases txs.len(),
{
    if txs.len() == 0 {
        seq![]
    } else {
        let prev = canonical_rows(txs.drop_last(), f, m, month);
        let t = txs.last();
        if Some(t.currency@) == opt_seq(f.currency) && selected_account(f, t.account_id) && in_month(t.posted_date@, month)
            && includes_canonical(m, t.kind@, t.amount_minor, category_filtered(f)) {
            prev.push(canonical_row(t))
        } else {
            prev
        }
    }
}

/// The expense lines in the dashboard's currency, accounts, categories and
/// month.
pub open spec fn line_rows(lines: Seq<ExpenseLineRow>, f: ResolvedFilters, month: Option<String>) -> Seq<DrillRowView>
    decreases lines.len(),
{
    if lines.len() == 0 {
        seq![]
    } else {
        let prev = line_rows(lines.drop_last(), f, month);
        let l = lines.last();
        if Some(l.currency@) == opt_seq(f.currency) && selected_account(f, l.account_id)
            && crate::closing::texts(f.category_ids@).contains(l.category_id@) && in_month(l.posted_date@, month) {
            prev.push(line_row(l))
        } else {
            prev
        }
    }
}

/// Rows order by date, then id.
pub open spec fn row_lt(a: DrillRowView, b: DrillRowView) -> bool {
    seq_lt(a.posted_date, b.posted_date) || (a.posted_date == b.posted_date && seq_lt(a.id, b.id))
}

/// `x` inserted into `s` after every row that does not sort after it.
pub open spec fn insert_row(s: Seq<DrillRowView>, x: DrillRowView) -> Seq<DrillRowView>
    decreases s.len(),
{
    if s.len() == 0 {
        seq![x]
    } else if row_lt(x, s.last()) {
        insert_row(s.drop_last(), x).push(s.last())
    } else {
        s.push(x)
    }
}

/// The rows in a stable order by date and id.
pub open spec fn sort_rows(s: Seq<DrillRowView>) -> Seq<DrillRowView>
    decreases s.len(),
{
    if s.len() == 0 { seq![] } else { insert_row(sort_rows(s.drop_last()), s.last()) }
}

/// The rows that sort after the cursor's date and id.
pub open spec fn after_cursor(s: Seq<DrillRowView>, date: Seq<char>, id: Seq<char>) -> Seq<DrillRowView> {
    s.filter(|r: DrillRowView| seq_lt(date, r.posted_date) || (r.posted_date == date && seq_lt(id, r.id)))
}

/// A cursor is a date (that `chrono` reads) and a non-empty id, joined by
/// the first `|`.
pub open spec fn parse_cursor_spec(c: Seq<char>) -> Option<(Seq<char>, Seq<char>)> {
    let k = crate::text::find_char(c, '|');
    if k < 0 {
        None
    } else {
        let date = c.subrange(0, k);
        let id = c.subrange(k + 1, c.len() as int);
        if id.len() == 0 || chrono_ymd(date) is None { None } else { Some((date, id)) }
    }
}

/// Filtering keeps exactly the suffix from `n` when every element before
/// `n` is dropped and every element from `n` on is kept.
proof fn lemma_filter_suffix(s: Seq<DrillRowView>, keep: spec_fn(DrillRowView) -> bool, n: int)
    requires
        0 <= n <= s.len(),
        forall|j: int| 0 <= j < n ==> !keep(#[trigger] s[j]),
        forall|j: int| n <= j < s.len() ==> keep(#[trigger] s[j]),
    ensures
        s.filter(keep) == s.skip(n),
    decreases s.len(),
{
    if s.len() > 0 {
        let t = s.drop_last();
        assert(s =~= t.push(s.last()));
        crate::text::lemma_filter_push(t, s.last(), keep);
        if n < s.len() {
            assert forall|j: int| n <= j < t.len() implies keep(#[trigger] t[j]) by {
                assert(t[j] == s[j]);
            }
            assert forall|j: int| 0 <= j < n implies !keep(#[trigger] t[j]) by {
                assert(t[j] == s[j]);
            }
            lemma_filter_suffix(t, keep, n);
            assert(keep(s[s.len() - 1]));
            assert(s.skip(n) =~= t.skip(n).push(s.last()));
        } else {
            assert forall|j: int| 0 <= j < t.len() implies !keep(#[trigger] t[j]) by {
                assert(t[j] == s[j]);
            }
            lemma_filter_suffix(t, keep, t.len() as int);
            assert(!keep(s[s.len() - 1]));
            assert(s.skip(n) =~= Seq::<DrillRowView>::empty());
            assert(t.skip(t.len() as int) =~= Seq::<DrillRowView>::empty());
        }
    } else {
        assert(s.filter(keep) =~= Seq::<DrillRowView>::empty()) by {
            reveal(Seq::filter);
        }
        assert(s.skip(n) =~= Seq::<DrillRowView>::empty());
    }
}

/// Resuming a drill-down after a row: among rows sorted strictly by date
/// and id, the cursor a page hands out at row `p` (its date, `|` and its
/// id) reads back as that row's date and id, and the rows after it are
/// exactly the rows that follow row `p`.  So each page after the first
/// starts where the page before it ended, and the pages list every row
/// once, in order.
pub proof fn law_cursor_resumes_after_its_row(all: Seq<DrillRowView>, p: int)
    requires
        0 <= p < all.len(),
        forall|j: int, k: int| 0 <= j < k < all.len() ==> row_lt(#[trigger] all[j], #[trigger] all[k]),
        !all[p].posted_date.contains('|'),
        chrono_ymd(all[p].posted_date) is Some,
        all[p].id.len() > 0,
    ensures
        parse_cursor_spec(all[p].posted_date + "|"@ + all[p].id) == Some((all[p].posted_date, all[p].id)),
        after_cursor(all, all[p].posted_date, all[p].id) == all.skip(p + 1),
{
    let d = all[p].posted_date;
    let i = all[p].id;
    let c = d + "|"@ + i;
    reveal_strlit("|");
    crate::text::lemma_find_char(c, '|');
    assert forall|j: int| 0 <= j < d.len() implies c[j] != '|' by {
        assert(c[j] == d[j]);
        if d[j] == '|' {
            assert(d.contains('|'));
        }
    }
    assert(c[d.len() as int] == '|');
    assert(crate::text::find_char(c, '|') == d.len());
    assert(c.subrange(0, d.len() as int) =~= d);
    assert(c.subrange(d.len() as int + 1, c.len() as int) =~= i);
    let keep = |r: DrillRowView| seq_lt(d, r.posted_date) || (r.posted_date == d && seq_lt(i, r.id));
    assert forall|j: int| 0 <= j < p + 1 implies !keep(#[trigger] all[j]) by {
        if j < p {
            assert(row_lt(all[j], all[p]));
            if seq_lt(d, all[j].posted_date) {
                if seq_lt(all[j].posted_date, d) {
                    crate::ordered::lemma_seq_lt_transitive(d, all[j].posted_date, d);
                }
                crate::ordered::lemma_seq_lt_irreflexive(d);
            }
            if all[j].posted_date == d && seq_lt(i, all[j].id) {
                crate::ordered::lemma_seq_lt_irreflexive(d);
                crate::ordered::lemma_seq_lt_transitive(i, all[j].id, i);
                crate::ordered::lemma_seq_lt_irreflexive(i);
            }
        } else {
            crate::ordered::lemma_seq_lt_irreflexive(d);
            crate::ordered::lemma_seq_lt_irreflexive(i);
        }
    }
    assert forall|j: int| p + 1 <= j < all.len() implies keep(#[trigger] all[j]) by {
        assert(row_lt(all[p], all[j]));
    }
    lemma_filter_suffix(all, keep, p + 1);
    assert(after_cursor(all, d, i) == all.filter(keep));
}

/// Two rows with the same date and id.
pub open spec fn same_key(a: DrillRowView, b: DrillRowView) -> bool {
    a.posted_date == b.posted_date && a.id == b.id
}

/// No two rows share a date and an id.
pub open spec fn keys_distinct(s: Seq<DrillRowView>) -> bool {
    forall|j: int, k: int| 0 <= j < k < s.len() ==> !same_key(#[trigger] s[j], #[trigger] s[k])
}

/// The rows ascend strictly by date, then id.
pub open spec fn rows_ascend(s: Seq<DrillRowView>) -> bool {
    forall|j: int, k: int| 0 <= j < k < s.len() ==> row_lt(#[trigger] s[j], #[trigger] s[k])
}

proof fn lemma_row_lt_transitive(a: DrillRowView, b: DrillRowView, c: DrillRowView)
    requires
        row_lt(a, b),
        row_lt(b, c),
    ensures
        row_lt(a, c),
{
    if seq_lt(a.posted_date, b.posted_date) && seq_lt(b.posted_date, c.posted_date) {
        crate::ordered::lemma_seq_lt_transitive(a.posted_date, b.posted_date, c.posted_date);
    } else if a.posted_date == b.posted_date && b.posted_date == c.posted_date {
        crate::ordered::lemma_seq_lt_transitive(a.id, b.id, c.id);
    }
}

proof fn lemma_row_lt_total(a: DrillRowView, b: DrillRowView)
    ensures
        same_key(a, b) || row_lt(a, b) || row_lt(b, a),
{
    crate::ordered::lemma_seq_lt_total(a.posted_date, b.posted_date);
    crate::ordered::lemma_seq_lt_total(a.id, b.id);
}

proof fn lemma_row_lt_asymmetric(a: DrillRowView, b: DrillRowView)
    requires
        row_lt(a, b),
    ensures
        !row_lt(b, a),
        !same_key(a, b),
{
    crate::ordered::lemma_seq_lt_irreflexive(a.posted_date);
    crate::ordered::lemma_seq_lt_irreflexive(a.id);
    if row_lt(b, a) {
        lemma_row_lt_transitive(a, b, a);
    }
}

proof fn lemma_insert_row_sorted(s: Seq<DrillRowView>, x: DrillRowView)
    requires
        rows_ascend(s),
        forall|j: int| 0 <= j < s.len() ==> !same_key(#[trigger] s[j], x),
    ensures
        rows_ascend(insert_row(s, x)),
        insert_row(s, x).len() == s.len() + 1,
        forall|y: DrillRowView| #[trigger] insert_row(s, x).contains(y) <==> (s.contains(y) || y == x),
    decreases s.len(),
{
    if s.len() == 0 {
        assert(insert_row(s, x) == seq![x]);
        assert forall|y: DrillRowView| #[trigger] insert_row(s, x).contains(y) <==> (s.contains(y) || y == x) by {
            if insert_row(s, x).contains(y) {
                assert(insert_row(s, x)[0] == x);
            }
            if y == x {
                assert(insert_row(s, x)[0] == x);
            }
        }
    } else {
        let last = s.last();
        let rest = s.drop_last();
        assert(!same_key(s[s.len() - 1], x));
        if row_lt(x, last) {
            assert(rows_ascend(rest)) by {
                assert forall|j: int, k: int| 0 <= j < k < rest.len() implies row_lt(#[trigger] rest[j], #[trigger] rest[k]) by {
                    assert(rest[j] == s[j] && rest[k] == s[k]);
                }
            }
            assert forall|j: int| 0 <= j < rest.len() implies !same_key(#[trigger] rest[j], x) by {
                assert(rest[j] == s[j]);
            }
            lemma_insert_row_sorted(rest, x);
            let r = insert_row(rest, x);
            assert(insert_row(s, x) == r.push(last));
            assert forall|j: int| 0 <= j < r.len() implies row_lt(#[trigger] r[j], last) by {
                assert(r.contains(r[j]));
                if r[j] != x {
                    let w = choose|w: int| 0 <= w < rest.len() && rest[w] == r[j];
                    assert(rest[w] == s[w]);
                    assert(row_lt(s[w], s[s.len() - 1]));
                }
            }
            let out = r.push(last);
            assert forall|j: int, k: int| 0 <= j < k < out.len() implies row_lt(#[trigger] out[j], #[trigger] out[k]) by {
                if k == out.len() - 1 {
                    assert(out[j] == r[j]);
                } else {
                    assert(out[j] == r[j] && out[k] == r[k]);
                }
            }
            assert forall|y: DrillRowView| #[trigger] out.contains(y) <==> (s.contains(y) || y == x) by {
                if out.contains(y) {
                    let w = choose|w: int| 0 <= w < out.len() && out[w] == y;
                    if w < r.len() {
                        assert(r.contains(r[w]));
                        if y != x {
                            let v = choose|v: int| 0 <= v < rest.len() && rest[v] == y;
                            assert(s[v] == y);
                        }
                    } else {
                        assert(s[s.len() - 1] == y);
                    }
                }
                if s.contains(y) {
                    let w = choose|w: int| 0 <= w < s.len() && s[w] == y;
                    if w < s.len() - 1 {
                        assert(rest[w] == y);
                        assert(rest.contains(y));
                        assert(r.contains(y));
                        let v = choose|v: int| 0 <= v < r.len() && r[v] == y;
                        assert(out[v] == y);
                    } else {
                        assert(out[out.len() - 1] == y);
                    }
                }
                if y == x {
                    assert(r.contains(x));
                    let v = choose|v: int| 0 <= v < r.len() && r[v] == x;
                    assert(out[v] == x);
                }
            }
        } else {
            lemma_row_lt_total(x, last);
            let out = s.push(x);
            assert(insert_row(s, x) == out);
            assert forall|j: int, k: int| 0 <= j < k < out.len() implies row_lt(#[trigger] out[j], #[trigger] out[k]) by {
                if k == out.len() - 1 {
                    if j < s.len() - 1 {
                        assert(row_lt(s[j], s[s.len() - 1]));
                        lemma_row_lt_transitive(s[j], last, x);
                    }
                } else {
                    assert(out[j] == s[j] && out[k] == s[k]);
                }
            }
            assert forall|y: DrillRowView| #[trigger] out.contains(y) <==> (s.contains(y) || y == x) by {
                if out.contains(y) {
                    let w = choose|w: int| 0 <= w < out.len() && out[w] == y;
                    if w < s.len() {
                        assert(s[w] == y);
                    }
                }
                if s.contains(y) {
                    let w = choose|w: int| 0 <= w < s.len() && s[w] == y;
                    assert(out[w] == y);
                }
                if y == x {
                    assert(out[s.len() as int] == x);
                }
            }
        }
    }
}

/// Sorting rows whose keys are distinct orders them strictly by date and id
/// and keeps exactly the same rows.
pub proof fn lemma_sort_rows_sorted(s: Seq<DrillRowView>)
    requires
        keys_distinct(s),
    ensures
        rows_ascend(sort_rows(s)),
        sort_rows(s).len() == s.len(),
        forall|y: DrillRowView| #[trigger] sort_rows(s).contains(y) <==> s.contains(y),
    decreases s.len(),
{
    if s.len() > 0 {
        let rest = s.drop_last();
        assert(keys_distinct(rest)) by {
            assert forall|j: int, k: int| 0 <= j < k < rest.len() implies !same_key(#[trigger] rest[j], #[trigger] rest[k]) by {
                assert(rest[j] == s[j] && rest[k] == s[k]);
            }
        }
        lemma_sort_rows_sorted(rest);
        let r = sort_rows(rest);
        assert forall|j: int| 0 <= j < r.len() implies !same_key(#[trigger] r[j], s.last()) by {
            assert(r.contains(r[j]));
            let w = choose|w: int| 0 <= w < rest.len() && rest[w] == r[j];
            assert(rest[w] == s[w]);
            assert(!same_key(s[w], s[s.len() - 1]));
        }
        lemma_insert_row_sorted(r, s.last());
        assert forall|y: DrillRowView| #[trigger] sort_rows(s).contains(y) <==> s.contains(y) by {
            if s.contains(y) {
                let w = choose|w: int| 0 <= w < s.len() && s[w] == y;
                if w < s.len() - 1 {
                    assert(rest[w] == y);
                    assert(rest.contains(y));
                }
            }
            if rest.contains(y) {
                let w = choose|w: int| 0 <= w < rest.len() && rest[w] == y;
                assert(s[w] == y);
            }
            if y == s.last() {
                assert(s[s.len() - 1] == y);
            }
        }
    }
}

/// The date a cursor names.
pub open spec fn cursor_date(c: Seq<char>) -> Seq<char> {
    match parse_cursor_spec(c) {
        Some(k) => k.0,
        None => Seq::empty(),
    }
}

/// The id a cursor names.
pub open spec fn cursor_id(c: Seq<char>) -> Seq<char> {
    match parse_cursor_spec(c) {
        Some(k) => k.1,
        None => Seq::empty(),
    }
}

/// A candidate row can carry a cursor: its date is one `chrono` reads and
/// holds no `|`, and its id is not empty.
pub open spec fn cursor_ready(r: DrillRowView) -> bool {
    !r.posted_date.contains('|') && chrono_ymd(r.posted_date) is Some && r.id.len() > 0
}

/// Drill-down pages follow each other: when a page of the sorted rows
/// starts at row `start` (the first page at row zero), it lists the rows
/// from `start` on, at most `limit` of them, and hands out a cursor exactly
/// when rows remain; asking again with that cursor gives the page that
/// starts right after it.  So, from the first page on, the pages list
/// every row once, in order of date and id.
pub proof fn law_drill_pages_follow_each_other(
    dash: Result<DashboardResponse, FinanceError>,
    request: DrillRequest,
    txs: Seq<TransactionRow>,
    lines: Seq<ExpenseLineRow>,
    r: Result<DrillResponse, FinanceError>,
    r2: Result<DrillResponse, FinanceError>,
    start: int,
)
    requires
        dash matches Ok(x) && x.state@ == "ready"@,
        1 <= request.limit,
        keys_distinct(drill_candidates(txs, lines, dash->Ok_0.filters, request.metric, request.month)),
        forall|j: int| 0 <= j < drill_candidates(txs, lines, dash->Ok_0.filters, request.metric, request.month).len()
            ==> cursor_ready(#[trigger] drill_candidates(txs, lines, dash->Ok_0.filters, request.metric, request.month)[j]),
        0 <= start <= drill_candidates(txs, lines, dash->Ok_0.filters, request.metric, request.month).len(),
        request.cursor is None ==> start == 0,
        request.cursor matches Some(c) ==> (parse_cursor_spec(c@) matches Some(k) && after_cursor(
            sort_rows(drill_candidates(txs, lines, dash->Ok_0.filters, request.metric, request.month)), k.0, k.1)
            == sort_rows(drill_candidates(txs, lines, dash->Ok_0.filters, request.metric, request.month)).skip(start)),
        drill_outcome(r, dash, request, txs, lines),
        r matches Ok(y) ==> drill_outcome(r2, dash, DrillRequest {
            filters: request.filters,
            metric: request.metric,
            month: request.month,
            cursor: y.next_cursor,
            limit: request.limit,
        }, txs, lines),
    ensures
        ({
            let all = sort_rows(drill_candidates(txs, lines, dash->Ok_0.filters, request.metric, request.month));
            let l = request.limit as int;
            let end = if start + l < all.len() { start + l } else { all.len() as int };
            &&& r matches Ok(y)
            &&& rows_view_of(r->Ok_0.rows@) == all.subrange(start, end)
            &&& (r->Ok_0.next_cursor is Some <==> start + l < all.len())
            &&& r->Ok_0.next_cursor matches Some(c) ==> {
                &&& parse_cursor_spec(c@) matches Some(k)
                &&& after_cursor(all, cursor_date(c@), cursor_id(c@)) == all.skip(start + l)
                &&& r2 matches Ok(y2)
                &&& rows_view_of(r2->Ok_0.rows@) == all.subrange(start + l, if start + 2 * l < all.len() {
                    start + 2 * l
                } else {
                    all.len() as int
                })
            }
        }),
{
    let x = dash->Ok_0;
    let cands = drill_candidates(txs, lines, x.filters, request.metric, request.month);
    let all = sort_rows(cands);
    let l = request.limit as int;
    lemma_sort_rows_sorted(cands);
    let src = all.skip(start);
    let page_src = match request.cursor {
        None => all,
        Some(c) => after_cursor(all, cursor_date(c@), cursor_id(c@)),
    };
    assert(page_src =~= src);
    let y = r->Ok_0;
    assert(r is Ok);
    assert(paged(y, page_src, request.limit));
    if src.len() > request.limit {
        assert(src.take(l) =~= all.subrange(start, start + l));
        let p = start + l - 1;
        assert(src[l - 1] == all[p]);
        assert(all.contains(all[p]));
        assert(cands.contains(all[p]));
        let w = choose|w: int| 0 <= w < cands.len() && cands[w] == all[p];
        assert(cursor_ready(cands[w]));
        law_cursor_resumes_after_its_row(all, p);
        let c = y.next_cursor->0;
        assert(c@ == all[p].posted_date + "|"@ + all[p].id);
        let y2 = r2->Ok_0;
        assert(r2 is Ok);
        let src2 = all.skip(start + l);
        assert(paged(y2, src2, request.limit));
        if src2.len() > request.limit {
            assert(src2.take(l) =~= all.subrange(start + l, start + 2 * l));
        } else {
            assert(src2 =~= all.subrange(start + l, all.len() as int));
        }
    } else {
        assert(src =~= all.subrange(start, all.len() as int));
    }
}

pub fn parse_cursor(cursor: &str) -> (r: Option<(String, String)>)
    ensures
        match parse_cursor_spec(cursor@) {
            Some((d, i)) => r matches Some(p) && p.0@ == d && p.1@ == i,
            None => r is None,
        },
{
    let v = crate::text::to_chars(cursor);
    proof { crate::text::lemma_find_char(cursor@, '|'); }
    assert(v@.subrange(0, v@.len() as int) =~= cursor@);
    let k = match crate::text::find_char_in(&v, 0, v.len(), '|') {
        Some(k) => k,
        None => return None,
    };
    let date = crate::text::string_of(&v, 0, k);
    if k + 1 >= v.len() {
        return None;
    }
    let id = crate::text::string_of(&v, k + 1, v.len());
    if parse_ymd(date.as_str()).is_none() {
        return None;
    }
    Some((date, id))
}

fn row_less(a: &DrillRow, b: &DrillRow) -> (r: bool)
    ensures
        r == row_lt(row_view(*a), row_view(*b)),
{
    str_lt(a.posted_date.as_str(), b.posted_date.as_str())
        || (str_eq(a.posted_date.as_str(), b.posted_date.as_str()) && str_lt(a.id.as_str(), b.id.as_str()))
}

proof fn lemma_insert_at(s: Seq<DrillRowView>, x: DrillRowView, p: int)
    requires
        0 <= p <= s.len(),
        forall|j: int| p <= j < s.len() ==> row_lt(x, #[trigger] s[j]),
        p == 0 || !row_lt(x, s[p - 1]),
    ensures
        insert_row(s, x) == s.subrange(0, p).push(x) + s.subrange(p, s.len() as int),
    decreases s.len() - p,
{
    if s.len() == 0 {
        assert(s.subrange(0, p).push(x) + s.subrange(p, s.len() as int) =~= seq![x]);
    } else if p == s.len() {
        assert(s.subrange(0, p).push(x) + s.subrange(p, s.len() as int) =~= s.push(x));
    } else {
        let t = s.drop_last();
        assert forall|j: int| p <= j < t.len() implies row_lt(x, #[trigger] t[j]) by {
            assert(t[j] == s[j]);
        }
        if p > 0 {
            assert(t[p - 1] == s[p - 1]);
        }
        lemma_insert_at(t, x, p);
        assert(row_lt(x, s.last()));
        assert(insert_row(s, x) == insert_row(t, x).push(s.last()));
        assert(t.subrange(0, p) =~= s.subrange(0, p));
        assert((t.subrange(0, p).push(x) + t.subrange(p, t.len() as int)).push(s.last())
            =~= s.subrange(0, p).push(x) + s.subrange(p, s.len() as int));
    }
}

fn insert_row_exec(v: &mut Vec<DrillRow>, x: DrillRow)
    ensures
        rows_view_of(final(v)@) == insert_row(rows_view_of(old(v)@), row_view(x)),
{
    let ghost s = rows_view_of(v@);
    let mut p: usize = v.len();
    while p > 0 && row_less(&x, &v[p - 1])
        invariant
            p <= v@.len(),
            s == rows_view_of(v@),
            forall|j: int| p <= j < s.len() ==> row_lt(row_view(x), #[trigger] s[j]),
        decreases p,
    {
        p = p - 1;
    }
    proof {
        if p > 0 {
            assert(s[p - 1] == row_view(v@[p - 1]));
        }
        lemma_insert_at(s, row_view(x), p as int);
    }
    v.insert(p, x);
    assert(rows_view_of(v@) =~= s.subrange(0, p as int).push(row_view(x)) + s.subrange(p as int, s.len() as int));
}

fn copy_row(r: &DrillRow) -> (c: DrillRow)
    ensures
        c == *r,
{
    DrillRow {
        row_type: r.row_type.clone(),
        id: r.id.clone(),
        canonical_transaction_id: r.canonical_transaction_id.clone(),
        posted_date: r.posted_date.clone(),
        account_id: crate::cdt::copy_opt(&r.account_id),
        description: r.description.clone(),
        transaction_kind: r.transaction_kind.clone(),
        category_id: crate::cdt::copy_opt(&r.category_id),
        amount_minor: r.amount_minor.clone(),
        currency: r.currency.clone(),
    }
}

/// The rows in a stable order by date and id (see `sort_rows`).
pub fn sort_drill_rows(rows: &Vec<DrillRow>) -> (r: Vec<DrillRow>)
    ensures
        rows_view_of(r@) == sort_rows(rows_view_of(rows@)),
{
    let mut out: Vec<DrillRow> = Vec::new();
    let mut i: usize = 0;
    while i < rows.len()
        invariant
            i <= rows@.len(),
            rows_view_of(out@) == sort_rows(rows_view_of(rows@.subrange(0, i as int))),
        decreases rows.len() - i,
    {
        assert(rows_view_of(rows@.subrange(0, i + 1)).drop_last() =~= rows_view_of(rows@.subrange(0, i as int)));
        insert_row_exec(&mut out, copy_row(&rows[i]));
        i = i + 1;
    }
    assert(rows@.subrange(0, rows@.len() as int) =~= rows@);
    out
}

fn month_matches(date: &str, month: &Option<String>) -> (r: bool)
    ensures
        r == in_month(date@, *month),
{
    match month {
        None => true,
        Some(m) => {
            let d = crate::text::to_chars(date);
            let mv = crate::text::to_chars(m.as_str());
            if mv.len() > d.len() {
                return false;
            }
            let mut i: usize = 0;
            while i < mv.len()
                invariant
                    i <= mv@.len() <= d@.len(),
                    d@ == date@,
                    mv@ == m@,
                    opt_seq(*month) == Some(m@),
                    forall|j: int| 0 <= j < i ==> d@[j] == mv@[j],
                decreases mv.len() - i,
            {
                if d[i] != mv[i] {
                    assert(date@.subrange(0, m@.len() as int)[i as int] != m@[i as int]);
                    return false;
                }
                i = i + 1;
            }
            assert(date@.subrange(0, m@.len() as int) =~= m@);
            true
        },
    }
}

fn canonical_row_exec(t: &TransactionRow) -> (r: DrillRow)
    ensures
        row_view(r) == canonical_row(*t),
{
    proof { reveal_strlit("canonical_transaction"); }
    DrillRow {
        row_type: owned("canonical_transaction"),
        id: t.id.clone(),
        canonical_transaction_id: t.id.clone(),
        posted_date: t.posted_date.clone(),
        account_id: crate::cdt::copy_opt(&t.account_id),
        description: t.description.clone(),
        transaction_kind: t.kind.clone(),
        category_id: None,
        amount_minor: format_i64(t.amount_minor),
        currency: t.currency.clone(),
    }
}

fn line_row_exec(l: &ExpenseLineRow) -> (r: DrillRow)
    ensures
        row_view(r) == line_row(*l),
{
    proof { reveal_strlit("expense_line"); reveal_strlit("expense"); }
    DrillRow {
        row_type: owned("expense_line"),
        id: l.id.clone(),
        canonical_transaction_id: l.transaction_id.clone(),
        posted_date: l.posted_date.clone(),
        account_id: crate::cdt::copy_opt(&l.account_id),
        description: l.description.clone(),
        transaction_kind: owned("expense"),
        category_id: Some(l.category_id.clone()),
        amount_minor: format_i64(l.amount_minor),
        currency: l.currency.clone(),
    }
}

fn currency_is(c: &str, currency: &Option<String>) -> (r: bool)
    ensures
        r == (Some(c@) == opt_seq(*currency)),
{
    match currency {
        Some(x) => str_eq(c, x.as_str()),
        None => false,
    }
}

/// The candidate rows of a drill-down, unsorted: the transactions the
/// metric lists, then, where categories are filtered and the metric counts
/// expenses, the matching expense lines.
pub open spec fn drill_candidates(txs: Seq<TransactionRow>, lines: Seq<ExpenseLineRow>, f: ResolvedFilters, m: DrillMetric, month: Option<String>) -> Seq<DrillRowView> {
    canonical_rows(txs, f, m, month) + if category_filtered(f) && includes_expense_lines(m) { line_rows(lines, f, month) } else { seq![] }
}

fn candidates(txs: &Vec<TransactionRow>, lines: &Vec<ExpenseLineRow>, f: &ResolvedFilters, m: DrillMetric, month: &Option<String>)
    -> (r: Vec<DrillRow>)
    ensures
        rows_view_of(r@) == drill_candidates(txs@, lines@, *f, m, *month),
{
    let filtered = is_category_filtered(f);
    let mut out: Vec<DrillRow> = Vec::new();
    let mut i: usize = 0;
    while i < txs.len()
        invariant
            i <= txs@.len(),
            filtered == category_filtered(*f),
            rows_view_of(out@) == canonical_rows(txs@.subrange(0, i as int), *f, m, *month),
        decreases txs.len() - i,
    {
        assert(txs@.subrange(0, i + 1).drop_last() =~= txs@.subrange(0, i as int));
        let t = &txs[i];
        if currency_is(t.currency.as_str(), &f.currency) && account_selected(f, &t.account_id)
            && month_matches(t.posted_date.as_str(), month) && canonical_included(m, t.kind.as_str(), t.amount_minor, filtered) {
            let ghost before = out@;
            out.push(canonical_row_exec(t));
            assert(rows_view_of(out@) =~= rows_view_of(before).push(canonical_row(*t)));
        }
        i = i + 1;
    }
    assert(txs@.subrange(0, txs@.len() as int) =~= txs@);
    let ghost canon = rows_view_of(out@);
    let with_lines = filtered && (m == DrillMetric::Activity || m == DrillMetric::ConsumptionExpense || m == DrillMetric::NetCashFlow);
    if with_lines {
        let mut j: usize = 0;
        while j < lines.len()
            invariant
                j <= lines@.len(),
                rows_view_of(out@) == canon + line_rows(lines@.subrange(0, j as int), *f, *month),
            decreases lines.len() - j,
        {
            assert(lines@.subrange(0, j + 1).drop_last() =~= lines@.subrange(0, j as int));
            let l = &lines[j];
            let ghost before = out@;
            if currency_is(l.currency.as_str(), &f.currency) && account_selected(f, &l.account_id)
                && text_listed(&f.category_ids, l.category_id.as_str()) && month_matches(l.posted_date.as_str(), month) {
                out.push(line_row_exec(l));
                assert(rows_view_of(out@) =~= rows_view_of(before).push(line_row(*l)));
            }
            assert(rows_view_of(out@) =~= canon + line_rows(lines@.subrange(0, j + 1), *f, *month));
            j = j + 1;
        }
        assert(lines@.subrange(0, lines@.len() as int) =~= lines@);
    } else {
        assert(rows_view_of(out@) =~= canon + seq![]);
    }
    out
}

fn keep_after(rows: Vec<DrillRow>, date: &str, id: &str) -> (r: Vec<DrillRow>)
    ensures
        rows_view_of(r@) == after_cursor(rows_view_of(rows@), date@, id@),
{
    let mut out: Vec<DrillRow> = Vec::new();
    let mut i: usize = 0;
    let ghost s = rows_view_of(rows@);
    while i < rows.len()
        invariant
            i <= rows@.len(),
            s == rows_view_of(rows@),
            rows_view_of(out@) == after_cursor(s.subrange(0, i as int), date@, id@),
        decreases rows.len() - i,
    {
        let r = &rows[i];
        let keep = str_lt(date, r.posted_date.as_str()) || (str_eq(r.posted_date.as_str(), date) && str_lt(id, r.id.as_str()));
        let ghost before = out@;
        assert(s.subrange(0, i + 1).drop_last() =~= s.subrange(0, i as int));
        reveal(Seq::filter);
        if keep {
            out.push(copy_row(r));
            assert(rows_view_of(out@) =~= rows_view_of(before).push(row_view(*r)));
        }
        assert(s.subrange(0, i + 1).last() == row_view(*r));
        i = i + 1;
    }
    assert(s.subrange(0, s.len() as int) =~= s);
    out
}

/// A page of the rows `s`: the first `limit`, with a cursor at the last
/// of them when more follow.
pub open spec fn paged(y: DrillResponse, s: Seq<DrillRowView>, limit: usize) -> bool {
    &&& rows_view_of(y.rows@) == (if s.len() > limit { s.take(limit as int) } else { s })
    &&& s.len() > limit ==> (y.next_cursor matches Some(c) && c@ == s[limit - 1].posted_date + "|"@ + s[limit - 1].id)
    &&& s.len() <= limit ==> y.next_cursor is None
}

/// What a drill-down answers given what the dashboard answered.
pub open spec fn drill_outcome(r: Result<DrillResponse, FinanceError>, dash: Result<DashboardResponse, FinanceError>, request: DrillRequest,
    txs: Seq<TransactionRow>, lines: Seq<ExpenseLineRow>) -> bool {
    match dash {
        Err(e) => r == Err::<DrillResponse, FinanceError>(e),
        Ok(x) => {
            let base = |y: DrillResponse| y.schema_version@ == dashboard_schema() && y.ok && y.filters == x.filters
                && y.metric@ == metric_name(request.metric) && y.errors@.len() == 0;
            if x.state@ != "ready"@ {
                r matches Ok(y) && base(y) && y.rows@.len() == 0 && y.next_cursor is None
            } else {
                let all = sort_rows(drill_candidates(txs, lines, x.filters, request.metric, request.month));
                match request.cursor {
                    None => r matches Ok(y) && base(y) && paged(y, all, request.limit),
                    Some(c) => match parse_cursor_spec(c@) {
                        None => r == Err::<DrillResponse, FinanceError>(FinanceError::InvalidCursor),
                        Some((d, i)) => r matches Ok(y) && base(y) && paged(y, after_cursor(all, d, i), request.limit),
                    },
                }
            }
        },
    }
}

fn page(rows: Vec<DrillRow>, limit: usize) -> (r: (Vec<DrillRow>, Option<String>))
    requires
        limit >= 1,
    ensures
        rows_view_of(r.0@) == (if rows@.len() > limit { rows_view_of(rows@).take(limit as int) } else { rows_view_of(rows@) }),
        rows@.len() > limit ==> (r.1 matches Some(c) && c@ == rows_view_of(rows@)[limit - 1].posted_date + "|"@
            + rows_view_of(rows@)[limit - 1].id),
        rows@.len() <= limit ==> r.1 is None,
{
    let has_more = rows.len() > limit;
    let mut out: Vec<DrillRow> = Vec::new();
    let mut i: usize = 0;
    while i < rows.len() && i < limit
        invariant
            i <= rows@.len(),
            i <= limit,
            rows_view_of(out@) == rows_view_of(rows@).take(i as int),
        decreases rows.len() - i,
    {
        let ghost before = out@;
        let c = copy_row(&rows[i]);
        out.push(c);
        assert(out@ == before.push(c));
        assert(rows_view_of(out@) =~= rows_view_of(before).push(row_view(c)));
        assert(rows_view_of(out@) =~= rows_view_of(rows@).take(i + 1));
        i = i + 1;
    }
    if rows.len() <= limit {
        assert(rows_view_of(rows@).take(i as int) =~= rows_view_of(rows@));
    }
    let next = if has_more {
        let last = &rows[limit - 1];
        let mut c = last.posted_date.clone();
        crate::text::push_str(&mut c, "|");
        crate::text::push_str(&mut c, last.id.as_str());
        Some(c)
    } else {
        None
    };
    (out, next)
}

/// A drill-down into the rows behind a dashboard measure (see
/// `drill_outcome`): the limit must be from 1 to 100.
pub fn read_drill_down(request: &DrillRequest, txs: &Vec<TransactionRow>, lines: &Vec<ExpenseLineRow>, d: Dimensions, read_at: String)
    -> (r: Result<DrillResponse, FinanceError>)
    requires
        request_months_known(request.filters, txs@),
    ensures
        !(1 <= request.limit <= 100) ==> r == Err::<DrillResponse, FinanceError>(FinanceError::InvalidLimit),
        1 <= request.limit <= 100 ==> exists|dash: Result<DashboardResponse, FinanceError>|
            #![trigger finance_result(dash, request.filters, txs@, lines@, d, read_at@)]
            finance_result(dash, request.filters, txs@, lines@, d, read_at@) && drill_outcome(r, dash, *request, txs@, lines@),
{
    if !(1 <= request.limit && request.limit <= 100) {
        return Err(FinanceError::InvalidLimit);
    }
    let ghost dv = d;
    let ghost ra = read_at@;
    let dash = read_finance(&request.filters, txs, lines, d, read_at);
    let ghost dash_v = dash;
    assert(finance_result(dash_v, request.filters, txs@, lines@, dv, ra));
    proof {
        reveal_strlit("ready");
        reveal_strlit("tracky.dashboard.v1");
        reveal_strlit("|");
    }
    let x = match dash {
        Ok(x) => x,
        Err(e) => return Err(e),
    };
    let metric = owned(request.metric.name());
    if !str_eq(x.state.as_str(), "ready") {
        let y = DrillResponse {
            schema_version: owned("tracky.dashboard.v1"),
            ok: true,
            filters: x.filters,
            metric,
            rows: Vec::new(),
            next_cursor: None,
            errors: Vec::new(),
        };
        assert(drill_outcome(Ok(y), dash_v, *request, txs@, lines@));
        return Ok(y);
    }
    let cands = candidates(txs, lines, &x.filters, request.metric, &request.month);
    let sorted = sort_drill_rows(&cands);
    let rows = match &request.cursor {
        None => sorted,
        Some(c) => match parse_cursor(c.as_str()) {
            None => {
                assert(drill_outcome(Err(FinanceError::InvalidCursor), dash_v, *request, txs@, lines@));
                return Err(FinanceError::InvalidCursor);
            },
            Some((date, id)) => keep_after(sorted, date.as_str(), id.as_str()),
        },
    };
    let (page_rows, next_cursor) = page(rows, request.limit);
    let y = DrillResponse {
        schema_version: owned("tracky.dashboard.v1"),
        ok: true,
        filters: x.filters,
        metric,
        rows: page_rows,
        next_cursor,
        errors: Vec::new(),
    };
    assert(drill_outcome(Ok(y), dash_v, *request, txs@, lines@));
    Ok(y)
}

/// A drill-down read from the rows of the requested range: the page size
/// is checked first, then the rows as for `finance_snapshot`; otherwise it
/// is `read_drill_down` over the dimensions these rows make.
pub fn drill_snapshot(
    request: &DrillRequest,
    txs: &Vec<TransactionRow>,
    lines: &Vec<ExpenseLineRow>,
    accounts: Vec<AccountDimension>,
    instruments: Vec<InstrumentDimension>,
    read_at: String,
) -> (r: Result<DrillResponse, FinanceError>)
    ensures
        !(1 <= request.limit <= 100) ==> r == Err::<DrillResponse, FinanceError>(FinanceError::InvalidLimit),
        (1 <= request.limit <= 100 && rows_check(request.filters.start_date@, request.filters.end_date@, txs@) is Err)
            ==> r == Err::<DrillResponse, FinanceError>(rows_check(request.filters.start_date@, request.filters.end_date@,
            txs@)->Err_0),
        (1 <= request.limit <= 100 && rows_check(request.filters.start_date@, request.filters.end_date@, txs@) is Ok)
            ==> exists|d: Dimensions, dash: Result<DashboardResponse, FinanceError>|
            #![trigger made_dimensions(d, txs@, lines@, accounts, instruments), finance_result(dash, request.filters, txs@, lines@, d, read_at@)]
            made_dimensions(d, txs@, lines@, accounts, instruments) && finance_result(dash, request.filters, txs@,
            lines@, d, read_at@) && drill_outcome(r, dash, *request, txs@, lines@),
{
    if !(1 <= request.limit && request.limit <= 100) {
        return Err(FinanceError::InvalidLimit);
    }
    match check_rows(&request.filters, txs) {
        Ok(()) => {},
        Err(e) => return Err(e),
    }
    let d = dimensions_from(txs, lines, accounts, instruments);
    let ghost dv = d;
    let r = read_drill_down(request, txs, lines, d, read_at);
    assert(made_dimensions(dv, txs@, lines@, accounts, instruments));
    r
}

} // verus!
