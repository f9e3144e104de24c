//! The investment report over a date range: external capital in and out,
//! acquisitions and how they were funded, returns, costs, and the closing
//! state, each per currency and per instrument.
use vstd::prelude::*;
use crate::brokerage::in_i64;
use crate::closing::{closing_result, closing_state, snapshot_dates_readable, negated, snapshot_date_readable, totals_of, ClosingInputs, ClosingPosition, PendingSection};
use crate::investments::{chrono_parses_ymd, parses_ymd};
use crate::ordered::{kv, SortedMap};
use crate::replay::{replay_brokerage_checked, cdt_step, fail, key4, key_of, replay_brokerage, spec_cdt_step, spec_replay, BrokerageReplayRow, CdtReplayRow, Halt, Key, ReplayState, ReplayView};
use crate::reports::{add_keep, add_total, currency_key, empty_aggregation, key1, spec_add, spec_add_keep, totals, AggregationView, DetailsView, MoneyTotal, ReportAggregation, ReportError, ReportFilters, TotalsView};
use crate::review::{owned, spaced, validation_failure, ReviewError};
use crate::text::{seq_lt, str_lt, trim_seq};
use crate::ids::ascii_upper;
use crate::cdt::opt_seq;

verus! {

pub open spec fn report_schema() -> Seq<char> {
    "tracky.investment-report.v1"@
}

pub open spec fn report_command() -> Seq<char> {
    "reports investments"@
}

/// The dates a report covers.
pub struct ReportDateRange {
    pub start_date: String,
    pub end_date: String,
}

pub struct CapitalSection {
    pub external_capital_contributed: Vec<MoneyTotal>,
    pub capital_withdrawn: Vec<MoneyTotal>,
    pub net_external_contribution: Vec<MoneyTotal>,
}

pub struct InstrumentAcquisition {
    pub account_id: String,
    pub instrument_id: String,
    pub instrument_type: String,
    pub currency: String,
    pub amount_minor: i64,
}

pub struct AcquisitionSection {
    pub gross_acquisitions: Vec<MoneyTotal>,
    pub funded_by_external_contribution: Vec<MoneyTotal>,
    pub funded_by_existing_cash: Vec<MoneyTotal>,
    pub funded_by_sales: Vec<MoneyTotal>,
    pub funded_by_maturities: Vec<MoneyTotal>,
    pub reinvestment: Vec<MoneyTotal>,
    pub by_instrument: Vec<InstrumentAcquisition>,
}

pub struct InstrumentReturnDetail {
    pub account_id: String,
    pub instrument_id: Option<String>,
    pub currency: String,
    pub principal_returned_minor: i64,
    pub gross_interest_minor: i64,
    pub gross_dividends_minor: i64,
    pub realized_result_minor: i64,
    pub net_cash_minor: i64,
}

pub struct ReturnSection {
    pub principal_returned: Vec<MoneyTotal>,
    pub gross_interest: Vec<MoneyTotal>,
    pub gross_dividends: Vec<MoneyTotal>,
    pub realized_results: Vec<MoneyTotal>,
    pub net_cash: Vec<MoneyTotal>,
    pub by_instrument: Vec<InstrumentReturnDetail>,
}

pub struct InstrumentCostDetail {
    pub account_id: String,
    pub instrument_id: Option<String>,
    pub currency: String,
    pub fees_and_commissions_minor: i64,
    pub withholding_minor: i64,
    pub other_deductions_minor: i64,
}

pub struct CostSection {
    pub fees_and_commissions: Vec<MoneyTotal>,
    pub withholding: Vec<MoneyTotal>,
    pub other_deductions: Vec<MoneyTotal>,
    pub by_instrument: Vec<InstrumentCostDetail>,
}

/// A provider enrichment of a CDT operation, with the provider's evidence
/// and the confirmed terms as the JSON texts stored.
pub struct CdtProviderEnrichmentReport {
    pub event_id: String,
    pub operation_revision_id: String,
    pub effective_date: String,
    pub provider_evidence: String,
    pub reviewer_terms: String,
}

/// The response of the investment report command.
pub struct InvestmentReportResponse {
    pub schema_version: String,
    pub command: String,
    pub ok: bool,
    pub date_range: ReportDateRange,
    pub capital_external: CapitalSection,
    pub acquisitions_and_reinvestment: AcquisitionSection,
    pub returns_and_income: ReturnSection,
    pub costs_and_withholding: CostSection,
    pub closing_positions: Vec<ClosingPosition>,
    pub pending_and_reconciliation: PendingSection,
    pub cdt_provider_enrichments: Vec<CdtProviderEnrichmentReport>,
    pub errors: Vec<ReviewError>,
}

// ---------------------------------------------------------------------
// Error responses.

/// `r` is the failed report for `from`..`to` with the one recoverable
/// validation failure `code` at `path` and every section empty.
pub open spec fn is_report_error(r: InvestmentReportResponse, from: Seq<char>, to: Seq<char>, code: Seq<char>, path: Seq<char>) -> bool {
    &&& r.schema_version@ == report_schema()
    &&& r.command@ == report_command()
    &&& !r.ok
    &&& r.date_range.start_date@ == from
    &&& r.date_range.end_date@ == to
    &&& r.capital_external.external_capital_contributed@.len() == 0
    &&& r.capital_external.capital_withdrawn@.len() == 0
    &&& r.capital_external.net_external_contribution@.len() == 0
    &&& r.acquisitions_and_reinvestment.gross_acquisitions@.len() == 0
    &&& r.acquisitions_and_reinvestment.funded_by_external_contribution@.len() == 0
    &&& r.acquisitions_and_reinvestment.funded_by_existing_cash@.len() == 0
    &&& r.acquisitions_and_reinvestment.funded_by_sales@.len() == 0
    &&& r.acquisitions_and_reinvestment.funded_by_maturities@.len() == 0
    &&& r.acquisitions_and_reinvestment.reinvestment@.len() == 0
    &&& r.acquisitions_and_reinvestment.by_instrument@.len() == 0
    &&& r.returns_and_income.principal_returned@.len() == 0
    &&& r.returns_and_income.gross_interest@.len() == 0
    &&& r.returns_and_income.gross_dividends@.len() == 0
    &&& r.returns_and_income.realized_results@.len() == 0
    &&& r.returns_and_income.net_cash@.len() == 0
    &&& r.returns_and_income.by_instrument@.len() == 0
    &&& r.costs_and_withholding.fees_and_commissions@.len() == 0
    &&& r.costs_and_withholding.withholding@.len() == 0
    &&& r.costs_and_withholding.other_deductions@.len() == 0
    &&& r.costs_and_withholding.by_instrument@.len() == 0
    &&& r.closing_positions@.len() == 0
    &&& r.pending_and_reconciliation.allocations@.len() == 0
    &&& r.pending_and_reconciliation.undated_acquisition_ids@.len() == 0
    &&& r.pending_and_reconciliation.unattributed_withdrawals@.len() == 0
    &&& r.pending_and_reconciliation.provider_events@.len() == 0
    &&& r.pending_and_reconciliation.missing_snapshot_positions@.len() == 0
    &&& r.pending_and_reconciliation.unreconciled_differences@.len() == 0
    &&& r.pending_and_reconciliation.missing_valuations@.len() == 0
    &&& r.pending_and_reconciliation.stale_valuations@.len() == 0
    &&& r.cdt_provider_enrichments@.len() == 0
    &&& r.errors@.len() == 1
    &&& r.errors@[0].category@ == "validation_failure"@
    &&& r.errors@[0].code@ == code
    &&& r.errors@[0].message@ == spaced(code)
    &&& r.errors@[0].path@ == path
    &&& r.errors@[0].recoverable
    &&& r.errors@[0].details@.len() == 0
}

fn empty_pending() -> (r: PendingSection)
    ensures
        r.allocations@.len() == 0,
        r.undated_acquisition_ids@.len() == 0,
        r.unattributed_withdrawals@.len() == 0,
        r.provider_events@.len() == 0,
        r.missing_snapshot_positions@.len() == 0,
        r.unreconciled_differences@.len() == 0,
        r.missing_valuations@.len() == 0,
        r.stale_valuations@.len() == 0,
{
    PendingSection {
        allocations: Vec::new(),
        undated_acquisition_ids: Vec::new(),
        unattributed_withdrawals: Vec::new(),
        provider_events: Vec::new(),
        missing_snapshot_positions: Vec::new(),
        unreconciled_differences: Vec::new(),
        missing_valuations: Vec::new(),
        stale_valuations: Vec::new(),
    }
}

/// The failed report for `from`..`to` with the validation failure `code`
/// at `path`.
pub fn report_error(from: &str, to: &str, code: &str, path: &str) -> (r: InvestmentReportResponse)
    ensures
        is_report_error(r, from@, to@, code@, path@),
{
    let mut errors = Vec::new();
    errors.push(validation_failure(code, path));
    let r = InvestmentReportResponse {
        schema_version: owned("tracky.investment-report.v1"),
        command: owned("reports investments"),
        ok: false,
        date_range: ReportDateRange { start_date: owned(from), end_date: owned(to) },
        capital_external: CapitalSection {
            external_capital_contributed: Vec::new(),
            capital_withdrawn: Vec::new(),
            net_external_contribution: Vec::new(),
        },
        acquisitions_and_reinvestment: AcquisitionSection {
            gross_acquisitions: Vec::new(),
            funded_by_external_contribution: Vec::new(),
            funded_by_existing_cash: Vec::new(),
            funded_by_sales: Vec::new(),
            funded_by_maturities: Vec::new(),
            reinvestment: Vec::new(),
            by_instrument: Vec::new(),
        },
        returns_and_income: ReturnSection {
            principal_returned: Vec::new(),
            gross_interest: Vec::new(),
            gross_dividends: Vec::new(),
            realized_results: Vec::new(),
            net_cash: Vec::new(),
            by_instrument: Vec::new(),
        },
        costs_and_withholding: CostSection {
            fees_and_commissions: Vec::new(),
            withholding: Vec::new(),
            other_deductions: Vec::new(),
            by_instrument: Vec::new(),
        },
        closing_positions: Vec::new(),
        pending_and_reconciliation: empty_pending(),
        cdt_provider_enrichments: Vec::new(),
        errors,
    };
    proof {
        reveal_strlit("tracky.investment-report.v1");
        reveal_strlit("reports investments");
    }
    r
}

/// A report date: ten bytes that `chrono` reads as `%Y-%m-%d`.
pub open spec fn spec_valid_date(value: Seq<char>) -> bool {
    vstd::utf8::encode_utf8(value).len() as usize == 10 && chrono_parses_ymd(value)
}

pub fn valid_date(value: &str) -> (r: bool)
    ensures
        r == spec_valid_date(value@),
{
    value.len() == 10 && parses_ymd(value)
}

// ---------------------------------------------------------------------
// External contributions and direct acquisitions.

/// A contribution transaction posted within the range.
pub struct ContributionRow {
    pub account_id: String,
    pub currency: String,
    pub signed_amount_minor: i64,
}

/// The covered contributions per currency: each contributes its negated
/// signed amount (zero amounts leave no total); `None` when an amount
/// leaves `i64`.
pub open spec fn spec_contributed(rows: Seq<ContributionRow>, f: ReportFilters) -> Option<TotalsView>
    decreases rows.len(),
{
    if rows.len() == 0 {
        Some(Map::empty())
    } else {
        match spec_contributed(rows.drop_last(), f) {
            None => None,
            Some(m) => {
                let r = rows.last();
                if !f.spec_includes(r.account_id@, r.currency@) {
                    Some(m)
                } else if !in_i64(-r.signed_amount_minor) {
                    None
                } else {
                    spec_add(m, currency_key(r.currency@), -r.signed_amount_minor)
                }
            },
        }
    }
}

proof fn lemma_contributed_none_stays(rows: Seq<ContributionRow>, f: ReportFilters, n: nat)
    requires
        n <= rows.len(),
        spec_contributed(rows.subrange(0, n as int), f) is None,
    ensures
        spec_contributed(rows, f) is None,
    decreases rows.len() - n,
{
    if n < rows.len() {
        assert(rows.subrange(0, (n + 1) as int).drop_last() =~= rows.subrange(0, n as int));
        lemma_contributed_none_stays(rows, f, n + 1);
    } else {
        assert(rows.subrange(0, n as int) =~= rows);
    }
}

/// The external capital contributed per currency.
pub fn external_contributions(rows: &Vec<ContributionRow>, filters: &ReportFilters) -> (r: Result<SortedMap<i64>, ReportError>)
    ensures
        match spec_contributed(rows@, *filters) {
            Some(m) => r matches Ok(t) && t.wf() && t@ == m,
            None => r == Err::<SortedMap<i64>, ReportError>(ReportError::AmountOverflow),
        },
{
    let mut t: SortedMap<i64> = SortedMap::new();
    let mut i: usize = 0;
    while i < rows.len()
        invariant
            i <= rows@.len(),
            t.wf(),
            spec_contributed(rows@.subrange(0, i as int), *filters) == Some(t@),
        decreases rows.len() - i,
    {
        assert(rows@.subrange(0, i + 1).drop_last() =~= rows@.subrange(0, i as int));
        let r = &rows[i];
        if filters.includes(r.account_id.as_str(), r.currency.as_str()) {
            let amount = match negated(r.signed_amount_minor) {
                Some(x) => x,
                None => {
                    proof { lemma_contributed_none_stays(rows@, *filters, (i + 1) as nat); }
                    return Err(ReportError::AmountOverflow);
                },
            };
            let k = key1(r.currency.as_str());
            match add_total(&mut t, k, amount) {
                Ok(()) => {},
                Err(e) => {
                    proof { lemma_contributed_none_stays(rows@, *filters, (i + 1) as nat); }
                    return Err(e);
                },
            }
        }
        i = i + 1;
    }
    assert(rows@.subrange(0, rows@.len() as int) =~= rows@);
    Ok(t)
}

/// An allocation effective within the range that no brokerage operation
/// consumed: a direct acquisition funded by its contribution.
pub struct DirectAcquisition {
    pub account_id: String,
    pub instrument_id: String,
    pub instrument_type: String,
    pub currency: String,
    pub amount_minor: i64,
}

/// A direct acquisition adds its cash to the gross acquisitions, to what
/// external contributions funded, and to its instrument's acquisitions.
pub open spec fn spec_direct(a: AggregationView, r: DirectAcquisition) -> Option<AggregationView> {
    let c = currency_key(r.currency@);
    match spec_add(a.gross, c, r.amount_minor as int) {
        None => None,
        Some(g) => match spec_add(a.external, c, r.amount_minor as int) {
            None => None,
            Some(x) => match spec_add_keep(a.instrument_acquisitions,
                key4(r.account_id@, r.instrument_id@, r.instrument_type@, r.currency@), r.amount_minor as int) {
                None => None,
                Some(ia) => Some(AggregationView { gross: g, external: x, instrument_acquisitions: ia, ..a }),
            },
        },
    }
}

/// The covered direct acquisitions applied in order.
pub open spec fn spec_direct_all(a: AggregationView, rows: Seq<DirectAcquisition>, f: ReportFilters) -> Option<AggregationView>
    decreases rows.len(),
{
    if rows.len() == 0 {
        Some(a)
    } else {
        match spec_direct_all(a, rows.drop_last(), f) {
            None => None,
            Some(b) => if f.spec_includes(rows.last().account_id@, rows.last().currency@) {
                spec_direct(b, rows.last())
            } else {
                Some(b)
            },
        }
    }
}

proof fn lemma_direct_none_stays(a: AggregationView, rows: Seq<DirectAcquisition>, f: ReportFilters, n: nat)
    requires
        n <= rows.len(),
        spec_direct_all(a, rows.subrange(0, n as int), f) is None,
    ensures
        spec_direct_all(a, rows, f) is None,
    decreases rows.len() - n,
{
    if n < rows.len() {
        assert(rows.subrange(0, (n + 1) as int).drop_last() =~= rows.subrange(0, n as int));
        lemma_direct_none_stays(a, rows, f, n + 1);
    } else {
        assert(rows.subrange(0, n as int) =~= rows);
    }
}

fn direct_step(a: &mut ReportAggregation, r: &DirectAcquisition) -> (res: Result<(), ReportError>)
    requires
        old(a).wf(),
    ensures
        final(a).wf(),
        match spec_direct(old(a).view(), *r) {
            Some(v) => res is Ok && final(a).view() == v,
            None => res == Err::<(), ReportError>(ReportError::AmountOverflow),
        },
{
    match add_total(&mut a.gross, key1(r.currency.as_str()), r.amount_minor) {
        Ok(()) => {},
        Err(e) => return Err(e),
    }
    match add_total(&mut a.external, key1(r.currency.as_str()), r.amount_minor) {
        Ok(()) => {},
        Err(e) => return Err(e),
    }
    let k = key_of(vec![Some(r.account_id.as_str()), Some(r.instrument_id.as_str()), Some(r.instrument_type.as_str()),
        Some(r.currency.as_str())]);
    assert(kv(k) =~= key4(r.account_id@, r.instrument_id@, r.instrument_type@, r.currency@));
    add_keep(&mut a.instrument_acquisitions, k, r.amount_minor)
}

/// Applies the covered direct acquisitions (see `spec_direct_all`).
pub fn direct_acquisitions(a: &mut ReportAggregation, rows: &Vec<DirectAcquisition>, filters: &ReportFilters) -> (res: Result<(), ReportError>)
    requires
        old(a).wf(),
    ensures
        final(a).wf(),
        match spec_direct_all(old(a).view(), rows@, *filters) {
            Some(v) => res is Ok && final(a).view() == v,
            None => res == Err::<(), ReportError>(ReportError::AmountOverflow),
        },
{
    let ghost start = a.view();
    let mut i: usize = 0;
    while i < rows.len()
        invariant
            i <= rows@.len(),
            a.wf(),
            start == old(a).view(),
            spec_direct_all(start, rows@.subrange(0, i as int), *filters) == Some(a.view()),
        decreases rows.len() - i,
    {
        assert(rows@.subrange(0, i + 1).drop_last() =~= rows@.subrange(0, i as int));
        let r = &rows[i];
        if filters.includes(r.account_id.as_str(), r.currency.as_str()) {
            match direct_step(a, r) {
                Ok(()) => {},
                Err(e) => {
                    proof { lemma_direct_none_stays(start, rows@, *filters, (i + 1) as nat); }
                    return Err(e);
                },
            }
        }
        i = i + 1;
    }
    assert(rows@.subrange(0, rows@.len() as int) =~= rows@);
    Ok(())
}

// ---------------------------------------------------------------------
// CDT operations.

/// The covered CDT operations applied in order.
pub open spec fn spec_cdt_all(a: AggregationView, rows: Seq<CdtReplayRow>, f: ReportFilters) -> Result<AggregationView, Halt>
    decreases rows.len(),
{
    if rows.len() == 0 {
        Ok(a)
    } else {
        match spec_cdt_all(a, rows.drop_last(), f) {
            Err(h) => Err(h),
            Ok(b) => if f.spec_includes(rows.last().account@, rows.last().cur@) {
                spec_cdt_step(b, rows.last())
            } else {
                Ok(b)
            },
        }
    }
}

proof fn lemma_cdt_halt_stays(a: AggregationView, rows: Seq<CdtReplayRow>, f: ReportFilters, n: nat)
    requires
        n <= rows.len(),
        spec_cdt_all(a, rows.subrange(0, n as int), f) is Err,
    ensures
        spec_cdt_all(a, rows, f) == spec_cdt_all(a, rows.subrange(0, n as int), f),
    decreases rows.len() - n,
{
    if n < rows.len() {
        assert(rows.subrange(0, (n + 1) as int).drop_last() =~= rows.subrange(0, n as int));
        lemma_cdt_halt_stays(a, rows, f, n + 1);
    } else {
        assert(rows.subrange(0, n as int) =~= rows);
    }
}

/// Applies the covered CDT operations effective within the range.
pub fn replay_cdt(a: &mut ReportAggregation, rows: &Vec<CdtReplayRow>, filters: &ReportFilters) -> (res: Result<(), ReportError>)
    requires
        old(a).wf(),
    ensures
        final(a).wf(),
        match spec_cdt_all(old(a).view(), rows@, *filters) {
            Ok(v) => res is Ok && final(a).view() == v,
            Err(h) => h matches Halt::Failure(e) && res == Err::<(), ReportError>(e),
        },
{
    let ghost start = a.view();
    let mut i: usize = 0;
    while i < rows.len()
        invariant
            i <= rows@.len(),
            a.wf(),
            start == old(a).view(),
            spec_cdt_all(start, rows@.subrange(0, i as int), *filters) == Ok::<AggregationView, Halt>(a.view()),
        decreases rows.len() - i,
    {
        assert(rows@.subrange(0, i + 1).drop_last() =~= rows@.subrange(0, i as int));
        let r = &rows[i];
        if filters.includes(r.account.as_str(), r.cur.as_str()) {
            match cdt_step(a, r) {
                Ok(()) => {},
                Err(e) => {
                    proof { lemma_cdt_halt_stays(start, rows@, *filters, (i + 1) as nat); }
                    return Err(e);
                },
            }
        }
        i = i + 1;
    }
    assert(rows@.subrange(0, rows@.len() as int) =~= rows@);
    Ok(())
}

// ---------------------------------------------------------------------
// Net external contribution.

pub open spec fn total_or_zero(m: TotalsView, k: Key) -> int {
    if m.contains_key(k) { m[k] as int } else { 0 }
}

/// What was contributed less what was withdrawn.
pub open spec fn net_value(c: TotalsView, w: TotalsView, k: Key) -> int {
    total_or_zero(c, k) - total_or_zero(w, k)
}

/// The net external contribution of every currency that was contributed
/// or withdrawn; `None` when one leaves `i64`.
pub open spec fn spec_net(c: TotalsView, w: TotalsView) -> Option<TotalsView> {
    if forall|k: Key| (c.contains_key(k) || w.contains_key(k)) ==> in_i64(#[trigger] net_value(c, w, k)) {
        Some(Map::new(|k: Key| c.contains_key(k) || w.contains_key(k), |k: Key| net_value(c, w, k) as i64))
    } else {
        None
    }
}

/// What the selected contributions of currency `cur` sum to: each one's
/// magnitude (contributions are stored as outflows, with a negative sign).
pub open spec fn contributed_sum(rows: Seq<ContributionRow>, f: ReportFilters, cur: Seq<char>) -> int
    decreases rows.len(),
{
    if rows.len() == 0 {
        0
    } else {
        let r = rows.last();
        contributed_sum(rows.drop_last(), f, cur) + if f.spec_includes(r.account_id@, r.currency@) && r.currency@ == cur {
            -r.signed_amount_minor
        } else {
            0
        }
    }
}

/// The external capital contributed in each currency is the sum of the
/// magnitudes of the selected contributions in that currency.
pub proof fn law_contributed_is_the_sum(rows: Seq<ContributionRow>, f: ReportFilters, cur: Seq<char>)
    ensures
        spec_contributed(rows, f) matches Some(m) ==> crate::replay::currency_total(m, cur) == contributed_sum(rows, f, cur),
    decreases rows.len(),
{
    if rows.len() > 0 {
        law_contributed_is_the_sum(rows.drop_last(), f, cur);
        let r = rows.last();
        if r.currency@ != cur {
            assert(currency_key(r.currency@) != seq![Some(cur)]) by {
                assert(currency_key(r.currency@)[0] != seq![Some(cur)][0]);
            }
        }
    }
}

/// The net external contribution of each currency is what was contributed
/// less what was withdrawn in it.
pub proof fn law_net_external(c: TotalsView, w: TotalsView, cur: Seq<char>)
    ensures
        spec_net(c, w) matches Some(n) ==> crate::replay::currency_total(n, cur) == crate::replay::currency_total(c, cur)
            - crate::replay::currency_total(w, cur),
{
    let k = seq![Some(cur)];
    if let Some(n) = spec_net(c, w) {
        if c.contains_key(k) || w.contains_key(k) {
            assert(in_i64(net_value(c, w, k)));
        }
    }
}

pub(crate) fn value_or_zero(m: &SortedMap<i64>, k: &Vec<Option<String>>) -> (r: i64)
    requires
        m.wf(),
    ensures
        r == total_or_zero(m@, kv(*k)),
{
    match m.find(k) {
        Some(i) => {
            proof { m.lemma_view_at(i as int); }
            m.entries[i].value
        },
        None => 0,
    }
}

/// Contributions less withdrawals per currency (see `spec_net`).
pub fn net_external(contributed: &SortedMap<i64>, withdrawn: &SortedMap<i64>) -> (r: Result<SortedMap<i64>, ReportError>)
    requires
        contributed.wf(),
        withdrawn.wf(),
    ensures
        match spec_net(contributed@, withdrawn@) {
            Some(m) => r matches Ok(t) && t.wf() && t@ == m,
            None => r == Err::<SortedMap<i64>, ReportError>(ReportError::AmountOverflow),
        },
{
    let ghost c = contributed@;
    let ghost w = withdrawn@;
    let mut out: SortedMap<i64> = SortedMap::new();
    let mut i: usize = 0;
    while i < contributed.entries.len()
        invariant
            i <= contributed.entries@.len(),
            contributed.wf(),
            withdrawn.wf(),
            c == contributed@,
            w == withdrawn@,
            out.wf(),
            forall|k: Key| #[trigger] out@.contains_key(k) <==> exists|j: int| 0 <= j < i && contributed.key_at(j) == k,
            forall|k: Key| #[trigger] out@.contains_key(k) ==> out@[k] == net_value(c, w, k),
        decreases contributed.entries.len() - i,
    {
        let k = &contributed.entries[i].key;
        proof { contributed.lemma_view_at(i as int); }
        let cv = contributed.entries[i].value;
        let wv = value_or_zero(withdrawn, k);
        match cv.checked_sub(wv) {
            Some(v) => {
                let found = out.find(k);
                proof {
                    if found is Some {
                        out.lemma_view_at(found->0 as int);
                        assert(out@.contains_key(kv(*k)));
                        let j = choose|j: int| 0 <= j < i && contributed.key_at(j) == kv(*k);
                        contributed.lemma_unique(j, i as int);
                    }
                }
                let k2 = crate::ordered::copy_key(k);
                out.insert_new(k2, v);
                assert forall|q: Key| #[trigger] out@.contains_key(q) <==> exists|j: int| 0 <= j < i + 1 && contributed.key_at(j) == q by {
                    if q == kv(*k) {
                        assert(contributed.key_at(i as int) == q);
                    }
                }
            },
            None => {
                assert(!in_i64(net_value(c, w, kv(*k))));
                assert(spec_net(c, w) is None);
                return Err(ReportError::AmountOverflow);
            },
        }
        i = i + 1;
    }
    assert forall|k: Key| #[trigger] out@.contains_key(k) <==> c.contains_key(k) by {
        if c.contains_key(k) {
            assert(contributed.has_key(k));
        }
    }
    let mut i: usize = 0;
    while i < withdrawn.entries.len()
        invariant
            i <= withdrawn.entries@.len(),
            contributed.wf(),
            withdrawn.wf(),
            c == contributed@,
            w == withdrawn@,
            out.wf(),
            forall|k: Key| #[trigger] out@.contains_key(k) <==> (c.contains_key(k) || exists|j: int| 0 <= j < i && withdrawn.key_at(j) == k),
            forall|k: Key| #[trigger] out@.contains_key(k) ==> out@[k] == net_value(c, w, k),
        decreases withdrawn.entries.len() - i,
    {
        let k = &withdrawn.entries[i].key;
        proof { withdrawn.lemma_view_at(i as int); }
        let wv = withdrawn.entries[i].value;
        match contributed.find(k) {
            Some(_) => {},
            None => {
                match 0i64.checked_sub(wv) {
                    Some(v) => {
                        let found = out.find(k);
                        proof {
                            if found is Some {
                                out.lemma_view_at(found->0 as int);
                                assert(out@.contains_key(kv(*k)));
                                assert(!c.contains_key(kv(*k)));
                                let j = choose|j: int| 0 <= j < i && withdrawn.key_at(j) == kv(*k);
                                withdrawn.lemma_unique(j, i as int);
                            }
                        }
                        let k2 = crate::ordered::copy_key(k);
                        out.insert_new(k2, v);
                    },
                    None => {
                        assert(!in_i64(net_value(c, w, kv(*k))));
                        assert(spec_net(c, w) is None);
                        return Err(ReportError::AmountOverflow);
                    },
                }
            },
        }
        assert forall|q: Key| #[trigger] out@.contains_key(q) <==> (c.contains_key(q) || exists|j: int| 0 <= j < i + 1 && withdrawn.key_at(j) == q) by {
            if q == kv(*k) {
                assert(withdrawn.key_at(i as int) == q);
            }
        }
        i = i + 1;
    }
    assert forall|k: Key| #[trigger] out@.contains_key(k) <==> (c.contains_key(k) || w.contains_key(k)) by {
        if w.contains_key(k) {
            assert(withdrawn.has_key(k));
        }
    }
    assert forall|k: Key| (c.contains_key(k) || w.contains_key(k)) implies in_i64(#[trigger] net_value(c, w, k)) by {
        assert(out@.contains_key(k));
    }
    assert(out@ =~= spec_net(c, w)->0);
    Ok(out)
}

// ---------------------------------------------------------------------
// Per-instrument lists.

/// Part `j` of a key as text (empty when absent).
pub open spec fn key_part(k: Key, j: int) -> Seq<char> {
    if 0 <= j < k.len() && k[j] is Some { k[j]->0 } else { seq![] }
}

/// Part `j` of a key as optional text.
pub open spec fn key_opt(k: Key, j: int) -> Option<Seq<char>> {
    if 0 <= j < k.len() { k[j] } else { None }
}

/// Component `j` of a detail (zero when absent).
pub open spec fn comp(v: Seq<i64>, j: int) -> i64 {
    if 0 <= j < v.len() { v[j] } else { 0 }
}

/// `v` lists the instrument acquisitions of `m` in key order (account,
/// instrument, instrument type, currency).
pub open spec fn acquisitions_of(v: Seq<InstrumentAcquisition>, m: TotalsView) -> bool {
    exists|s: SortedMap<i64>| #![trigger s.wf()] s.wf() && s@ == m && v.len() == s.entries@.len()
        && forall|i: int| 0 <= i < v.len() ==> {
            let k = s.key_at(i);
            &&& (#[trigger] v[i]).account_id@ == key_part(k, 0)
            &&& v[i].instrument_id@ == key_part(k, 1)
            &&& v[i].instrument_type@ == key_part(k, 2)
            &&& v[i].currency@ == key_part(k, 3)
            &&& v[i].amount_minor == m[k]
        }
}

/// `v` lists the return details of `m` in key order.
pub open spec fn returns_of(v: Seq<InstrumentReturnDetail>, m: DetailsView) -> bool {
    exists|s: SortedMap<Vec<i64>>| #![trigger s.wf()] s.wf() && crate::reports::details_view(s) == m && v.len() == s.entries@.len()
        && forall|i: int| 0 <= i < v.len() ==> {
            let k = s.key_at(i);
            let x = m[k];
            &&& (#[trigger] v[i]).account_id@ == key_part(k, 0)
            &&& opt_seq(v[i].instrument_id) == key_opt(k, 1)
            &&& v[i].currency@ == key_part(k, 2)
            &&& v[i].principal_returned_minor == comp(x, 0)
            &&& v[i].gross_interest_minor == comp(x, 1)
            &&& v[i].gross_dividends_minor == comp(x, 2)
            &&& v[i].realized_result_minor == comp(x, 3)
            &&& v[i].net_cash_minor == comp(x, 4)
        }
}

/// `v` lists the cost details of `m` in key order.
pub open spec fn costs_of(v: Seq<InstrumentCostDetail>, m: DetailsView) -> bool {
    exists|s: SortedMap<Vec<i64>>| #![trigger s.wf()] s.wf() && crate::reports::details_view(s) == m && v.len() == s.entries@.len()
        && forall|i: int| 0 <= i < v.len() ==> {
            let k = s.key_at(i);
            let x = m[k];
            &&& (#[trigger] v[i]).account_id@ == key_part(k, 0)
            &&& opt_seq(v[i].instrument_id) == key_opt(k, 1)
            &&& v[i].currency@ == key_part(k, 2)
            &&& v[i].fees_and_commissions_minor == comp(x, 0)
            &&& v[i].withholding_minor == comp(x, 1)
            &&& v[i].other_deductions_minor == comp(x, 2)
        }
}

pub(crate) fn part_text(k: &Vec<Option<String>>, j: usize) -> (r: String)
    ensures
        r@ == key_part(kv(*k), j as int),
{
    if j < k.len() {
        match &k[j] {
            Some(x) => x.clone(),
            None => String::new(),
        }
    } else {
        String::new()
    }
}

fn part_opt(k: &Vec<Option<String>>, j: usize) -> (r: Option<String>)
    ensures
        opt_seq(r) == key_opt(kv(*k), j as int),
{
    if j < k.len() {
        crate::cdt::copy_opt(&k[j])
    } else {
        None
    }
}

fn component(v: &Vec<i64>, j: usize) -> (r: i64)
    ensures
        r == comp(v@, j as int),
{
    if j < v.len() { v[j] } else { 0 }
}

pub fn instrument_acquisitions(m: &SortedMap<i64>) -> (r: Vec<InstrumentAcquisition>)
    requires
        m.wf(),
    ensures
        acquisitions_of(r@, m@),
{
    let mut out: Vec<InstrumentAcquisition> = Vec::new();
    let mut i: usize = 0;
    while i < m.entries.len()
        invariant
            i <= m.entries@.len(),
            m.wf(),
            out@.len() == i,
            forall|q: int| 0 <= q < i ==> {
                let k = m.key_at(q);
                &&& (#[trigger] out@[q]).account_id@ == key_part(k, 0)
                &&& out@[q].instrument_id@ == key_part(k, 1)
                &&& out@[q].instrument_type@ == key_part(k, 2)
                &&& out@[q].currency@ == key_part(k, 3)
                &&& out@[q].amount_minor == m@[k]
            },
        decreases m.entries.len() - i,
    {
        let e = &m.entries[i];
        proof { m.lemma_view_at(i as int); }
        out.push(InstrumentAcquisition {
            account_id: part_text(&e.key, 0),
            instrument_id: part_text(&e.key, 1),
            instrument_type: part_text(&e.key, 2),
            currency: part_text(&e.key, 3),
            amount_minor: e.value,
        });
        i = i + 1;
    }
    out
}

pub fn return_details(m: &SortedMap<Vec<i64>>) -> (r: Vec<InstrumentReturnDetail>)
    requires
        m.wf(),
    ensures
        returns_of(r@, crate::reports::details_view(*m)),
{
    let ghost d = crate::reports::details_view(*m);
    let mut out: Vec<InstrumentReturnDetail> = Vec::new();
    let mut i: usize = 0;
    while i < m.entries.len()
        invariant
            i <= m.entries@.len(),
            m.wf(),
            d == crate::reports::details_view(*m),
            out@.len() == i,
            forall|q: int| 0 <= q < i ==> {
                let k = m.key_at(q);
                let x = d[k];
                &&& (#[trigger] out@[q]).account_id@ == key_part(k, 0)
                &&& opt_seq(out@[q].instrument_id) == key_opt(k, 1)
                &&& out@[q].currency@ == key_part(k, 2)
                &&& out@[q].principal_returned_minor == comp(x, 0)
                &&& out@[q].gross_interest_minor == comp(x, 1)
                &&& out@[q].gross_dividends_minor == comp(x, 2)
                &&& out@[q].realized_result_minor == comp(x, 3)
                &&& out@[q].net_cash_minor == comp(x, 4)
            },
        decreases m.entries.len() - i,
    {
        let e = &m.entries[i];
        proof { m.lemma_view_at(i as int); }
        out.push(InstrumentReturnDetail {
            account_id: part_text(&e.key, 0),
            instrument_id: part_opt(&e.key, 1),
            currency: part_text(&e.key, 2),
            principal_returned_minor: component(&e.value, 0),
            gross_interest_minor: component(&e.value, 1),
            gross_dividends_minor: component(&e.value, 2),
            realized_result_minor: component(&e.value, 3),
            net_cash_minor: component(&e.value, 4),
        });
        i = i + 1;
    }
    out
}

pub fn cost_details(m: &SortedMap<Vec<i64>>) -> (r: Vec<InstrumentCostDetail>)
    requires
        m.wf(),
    ensures
        costs_of(r@, crate::reports::details_view(*m)),
{
    let ghost d = crate::reports::details_view(*m);
    let mut out: Vec<InstrumentCostDetail> = Vec::new();
    let mut i: usize = 0;
    while i < m.entries.len()
        invariant
            i <= m.entries@.len(),
            m.wf(),
            d == crate::reports::details_view(*m),
            out@.len() == i,
            forall|q: int| 0 <= q < i ==> {
                let k = m.key_at(q);
                let x = d[k];
                &&& (#[trigger] out@[q]).account_id@ == key_part(k, 0)
                &&& opt_seq(out@[q].instrument_id) == key_opt(k, 1)
                &&& out@[q].currency@ == key_part(k, 2)
                &&& out@[q].fees_and_commissions_minor == comp(x, 0)
                &&& out@[q].withholding_minor == comp(x, 1)
                &&& out@[q].other_deductions_minor == comp(x, 2)
            },
        decreases m.entries.len() - i,
    {
        let e = &m.entries[i];
        proof { m.lemma_view_at(i as int); }
        out.push(InstrumentCostDetail {
            account_id: part_text(&e.key, 0),
            instrument_id: part_opt(&e.key, 1),
            currency: part_text(&e.key, 2),
            fees_and_commissions_minor: component(&e.value, 0),
            withholding_minor: component(&e.value, 1),
            other_deductions_minor: component(&e.value, 2),
        });
        i = i + 1;
    }
    out
}

// ---------------------------------------------------------------------
// The report.

/// A provider enrichment of a CDT operation effective within the range,
/// with the account and currency of its position.
pub struct EnrichmentRow {
    pub account_id: String,
    pub currency: String,
    pub report: CdtProviderEnrichmentReport,
}

/// The enrichments whose account and currency the filters cover, in order.
pub open spec fn spec_enrichments(rows: Seq<EnrichmentRow>, f: ReportFilters) -> Seq<CdtProviderEnrichmentReport>
    decreases rows.len(),
{
    if rows.len() == 0 {
        seq![]
    } else {
        let prev = spec_enrichments(rows.drop_last(), f);
        let r = rows.last();
        if f.spec_includes(r.account_id@, r.currency@) { prev.push(r.report) } else { prev }
    }
}

fn copy_enrichment(e: &CdtProviderEnrichmentReport) -> (r: CdtProviderEnrichmentReport)
    ensures
        r == *e,
{
    CdtProviderEnrichmentReport {
        event_id: e.event_id.clone(),
        operation_revision_id: e.operation_revision_id.clone(),
        effective_date: e.effective_date.clone(),
        provider_evidence: e.provider_evidence.clone(),
        reviewer_terms: e.reviewer_terms.clone(),
    }
}

pub fn enrichments(rows: &Vec<EnrichmentRow>, filters: &ReportFilters) -> (r: Vec<CdtProviderEnrichmentReport>)
    ensures
        r@ == spec_enrichments(rows@, *filters),
{
    let mut out: Vec<CdtProviderEnrichmentReport> = Vec::new();
    let mut i: usize = 0;
    while i < rows.len()
        invariant
            i <= rows@.len(),
            out@ == spec_enrichments(rows@.subrange(0, i as int), *filters),
        decreases rows.len() - i,
    {
        assert(rows@.subrange(0, i + 1).drop_last() =~= rows@.subrange(0, i as int));
        let r = &rows[i];
        if filters.includes(r.account_id.as_str(), r.currency.as_str()) {
            out.push(copy_enrichment(&r.report));
        }
        i = i + 1;
    }
    assert(rows@.subrange(0, rows@.len() as int) =~= rows@);
    out
}

/// What a report is computed from, as storage has it: contributions,
/// direct acquisitions and CDT operations within the range, brokerage
/// operations through its end (in order), the closing inputs and the CDT
/// provider enrichments within the range.
pub struct ReportInputs {
    pub contributions: Vec<ContributionRow>,
    pub direct: Vec<DirectAcquisition>,
    pub brokerage: Vec<BrokerageReplayRow>,
    pub cdt: Vec<CdtReplayRow>,
    pub closing: ClosingInputs,
    pub enrichments: Vec<EnrichmentRow>,
}

pub open spec fn start_replay(a: AggregationView) -> ReplayView {
    ReplayView { pools: Map::empty(), origins: Map::empty(), agg: a }
}

/// The report's totals: the external contributions, everything accumulated
/// by the direct acquisitions, the brokerage replay from `from` and the CDT
/// operations, and the net external contribution.
pub open spec fn spec_report_totals(from: Seq<char>, inputs: ReportInputs, f: ReportFilters) -> Result<(TotalsView, AggregationView, TotalsView), Halt> {
    match spec_contributed(inputs.contributions@, f) {
        None => Err(fail(ReportError::AmountOverflow)),
        Some(c) => match spec_direct_all(empty_aggregation(), inputs.direct@, f) {
            None => Err(fail(ReportError::AmountOverflow)),
            Some(a0) => match spec_replay(start_replay(a0), inputs.brokerage@, inputs.brokerage@.len(), from, f) {
                Err(h) => Err(h),
                Ok(v) => match spec_cdt_all(v.agg, inputs.cdt@, f) {
                    Err(h) => Err(h),
                    Ok(a) => match spec_net(c, a.withdrawn) {
                        None => Err(fail(ReportError::AmountOverflow)),
                        Some(n) => Ok((c, a, n)),
                    },
                },
            },
        },
    }
}

/// `f` holds the selected currency (trimmed and upper-cased) and accounts.
pub open spec fn selects(f: ReportFilters, currency: Option<&str>, accounts: Seq<String>) -> bool {
    &&& opt_seq(f.currency) == (match currency {
        Some(c) => Some(ascii_upper(trim_seq(c@))),
        None => None,
    })
    &&& f.account_ids@ == accounts
}

/// The range is valid: both dates are, and `from` is not after `to`.
pub open spec fn valid_range(from: Seq<char>, to: Seq<char>) -> bool {
    spec_valid_date(from) && spec_valid_date(to) && !seq_lt(to, from)
}

/// What reporting on a valid range cannot do without panicking: the
/// brokerage replay must not meet an input it panics on, and each snapshot
/// needs a readable date once the totals are computed.
pub open spec fn report_can_run(from: Seq<char>, to: Seq<char>, inputs: ReportInputs, f: ReportFilters) -> bool {
    valid_range(from, to) ==> {
        &&& spec_report_totals(from, inputs, f) != Err::<(TotalsView, AggregationView, TotalsView), Halt>(Halt::Panic)
        &&& (spec_report_totals(from, inputs, f) is Ok ==>
            forall|i: int| 0 <= i < inputs.closing.snapshots@.len() ==> snapshot_date_readable(#[trigger] inputs.closing.snapshots@[i]))
    }
}

/// `r` is the report built from the totals `c`, `a`, `n` and the closing
/// state and enrichments of the inputs.
pub open spec fn report_built(r: InvestmentReportResponse, from: Seq<char>, to: Seq<char>, c: TotalsView, a: AggregationView, n: TotalsView, inputs: ReportInputs, f: ReportFilters) -> bool {
    &&& r.schema_version@ == report_schema()
    &&& r.command@ == report_command()
    &&& r.ok
    &&& r.date_range.start_date@ == from
    &&& r.date_range.end_date@ == to
    &&& totals_of(r.capital_external.external_capital_contributed@, c)
    &&& totals_of(r.capital_external.capital_withdrawn@, a.withdrawn)
    &&& totals_of(r.capital_external.net_external_contribution@, n)
    &&& totals_of(r.acquisitions_and_reinvestment.gross_acquisitions@, a.gross)
    &&& totals_of(r.acquisitions_and_reinvestment.funded_by_external_contribution@, a.external)
    &&& totals_of(r.acquisitions_and_reinvestment.funded_by_existing_cash@, a.existing)
    &&& totals_of(r.acquisitions_and_reinvestment.funded_by_sales@, a.sales)
    &&& totals_of(r.acquisitions_and_reinvestment.funded_by_maturities@, a.maturities)
    &&& totals_of(r.acquisitions_and_reinvestment.reinvestment@, a.reinvest)
    &&& acquisitions_of(r.acquisitions_and_reinvestment.by_instrument@, a.instrument_acquisitions)
    &&& totals_of(r.returns_and_income.principal_returned@, a.principal)
    &&& totals_of(r.returns_and_income.gross_interest@, a.interest)
    &&& totals_of(r.returns_and_income.gross_dividends@, a.dividends)
    &&& totals_of(r.returns_and_income.realized_results@, a.results)
    &&& totals_of(r.returns_and_income.net_cash@, a.net)
    &&& returns_of(r.returns_and_income.by_instrument@, a.return_details)
    &&& totals_of(r.costs_and_withholding.fees_and_commissions@, a.fees)
    &&& totals_of(r.costs_and_withholding.withholding@, a.withholding)
    &&& totals_of(r.costs_and_withholding.other_deductions@, a.deductions)
    &&& costs_of(r.costs_and_withholding.by_instrument@, a.cost_details)
    &&& closing_result(Ok((r.pending_and_reconciliation, r.closing_positions)), a.unattributed_withdrawals, inputs.closing, f)
    &&& r.cdt_provider_enrichments@ == spec_enrichments(inputs.enrichments@, f)
    &&& r.errors@.len() == 0
}

/// What `report_filtered` answers for filters `f`.
pub open spec fn report_outcome(r: Result<InvestmentReportResponse, ReportError>, from: Seq<char>, to: Seq<char>, inputs: ReportInputs, f: ReportFilters) -> bool {
    if !spec_valid_date(from) {
        r matches Ok(x) && is_report_error(x, from, to, "invalid_from_date"@, "from"@)
    } else if !spec_valid_date(to) {
        r matches Ok(x) && is_report_error(x, from, to, "invalid_to_date"@, "to"@)
    } else if seq_lt(to, from) {
        r matches Ok(x) && is_report_error(x, from, to, "invalid_date_range"@, "date_range"@)
    } else {
        match spec_report_totals(from, inputs, f) {
            Err(h) => h matches Halt::Failure(e) && r == Err::<InvestmentReportResponse, ReportError>(e),
            Ok((c, a, n)) => match r {
                Err(e) => closing_result(Err(e), a.unattributed_withdrawals, inputs.closing, f),
                Ok(x) => report_built(x, from, to, c, a, n, inputs, f),
            },
        }
    }
}

fn money_totals(m: &SortedMap<i64>) -> (r: Vec<MoneyTotal>)
    requires
        m.wf(),
    ensures
        totals_of(r@, m@),
{
    let r = totals(m);
    assert(m.wf() && m@ == m@);
    r
}

/// The investment report over `from`..`to` for the selected currency and
/// accounts (see `report_outcome`): an invalid range is answered with a
/// failed report; otherwise the report, or the error that stopped it.
pub fn report_filtered(from: &str, to: &str, selected_currency: Option<&str>, selected_account_ids: &Vec<String>, inputs: &ReportInputs)
    -> (r: Result<InvestmentReportResponse, ReportError>)
    requires
        forall|f: ReportFilters| selects(f, selected_currency, selected_account_ids@) ==> report_can_run(from@, to@, *inputs, f),
    ensures
        exists|f: ReportFilters| selects(f, selected_currency, selected_account_ids@) && report_outcome(r, from@, to@, *inputs, f),
{
    match report_filtered_checked(from, to, selected_currency, selected_account_ids, inputs) {
        Some(x) => x,
        None => {
            proof {
                let f = choose|f: ReportFilters| #![trigger selects(f, selected_currency, selected_account_ids@)]
                    selects(f, selected_currency, selected_account_ids@) && (report_can_run(from@, to@, *inputs, f)
                    ==> false) && (!report_can_run(from@, to@, *inputs, f) ==> true);
                assert(report_can_run(from@, to@, *inputs, f));
            }
            Err(ReportError::AmountOverflow)
        },
    }
}

/// The investment report over `from`..`to` for the selected currency and
/// accounts (see `report_outcome`), or `None` where it cannot be computed:
/// where replaying the operations would leave `i64` or divide by zero, or
/// where a snapshot's observation time cannot be cut to its date (see
/// `report_can_run`).
pub fn report_filtered_checked(from: &str, to: &str, selected_currency: Option<&str>, selected_account_ids: &Vec<String>, inputs: &ReportInputs)
    -> (r: Option<Result<InvestmentReportResponse, ReportError>>)
    ensures
        exists|f: ReportFilters| #![trigger selects(f, selected_currency, selected_account_ids@)]
            selects(f, selected_currency, selected_account_ids@) && (report_can_run(from@, to@, *inputs, f) ==> (r matches Some(x)
            && report_outcome(x, from@, to@, *inputs, f))) && (!report_can_run(from@, to@, *inputs, f) ==> r is None),
{
    let filters = ReportFilters::new(selected_currency, selected_account_ids);
    assert(selects(filters, selected_currency, selected_account_ids@));
    proof {
        reveal_strlit("invalid_from_date");
        reveal_strlit("from");
        reveal_strlit("invalid_to_date");
        reveal_strlit("to");
        reveal_strlit("invalid_date_range");
        reveal_strlit("date_range");
    }
    if !valid_date(from) {
        return Some(Ok(report_error(from, to, "invalid_from_date", "from")));
    }
    if !valid_date(to) {
        return Some(Ok(report_error(from, to, "invalid_to_date", "to")));
    }
    if str_lt(to, from) {
        return Some(Ok(report_error(from, to, "invalid_date_range", "date_range")));
    }
    let contributed = match external_contributions(&inputs.contributions, &filters) {
        Ok(t) => t,
        Err(e) => return Some(Err(e)),
    };
    let mut st = ReplayState::new();
    match direct_acquisitions(&mut st.aggregation, &inputs.direct, &filters) {
        Ok(()) => {},
        Err(e) => return Some(Err(e)),
    }
    assert(st.view() == start_replay(st.view().agg));
    match replay_brokerage_checked(&mut st, &inputs.brokerage, from, &filters) {
        Ok(()) => {},
        Err(Halt::Panic) => return None,
        Err(Halt::Failure(e)) => return Some(Err(e)),
    }
    let mut a = st.aggregation;
    match replay_cdt(&mut a, &inputs.cdt, &filters) {
        Ok(()) => {},
        Err(e) => return Some(Err(e)),
    }
    let net = match net_external(&contributed, &a.withdrawn) {
        Ok(t) => t,
        Err(e) => return Some(Err(e)),
    };
    let ghost av = a.view();
    if !snapshot_dates_readable(&inputs.closing.snapshots) {
        return None;
    }
    let (pending, positions) = match closing_state(&a.unattributed_withdrawals, &filters, &inputs.closing) {
        Ok(x) => x,
        Err(e) => return Some(Err(e)),
    };
    let cdt_provider_enrichments = enrichments(&inputs.enrichments, &filters);
    let r = InvestmentReportResponse {
        schema_version: owned("tracky.investment-report.v1"),
        command: owned("reports investments"),
        ok: true,
        date_range: ReportDateRange { start_date: owned(from), end_date: owned(to) },
        capital_external: CapitalSection {
            external_capital_contributed: money_totals(&contributed),
            capital_withdrawn: money_totals(&a.withdrawn),
            net_external_contribution: money_totals(&net),
        },
        acquisitions_and_reinvestment: AcquisitionSection {
            gross_acquisitions: money_totals(&a.gross),
            funded_by_external_contribution: money_totals(&a.external),
            funded_by_existing_cash: money_totals(&a.existing),
            funded_by_sales: money_totals(&a.sales),
            funded_by_maturities: money_totals(&a.maturities),
            reinvestment: money_totals(&a.reinvest),
            by_instrument: instrument_acquisitions(&a.instrument_acquisitions),
        },
        returns_and_income: ReturnSection {
            principal_returned: money_totals(&a.principal),
            gross_interest: money_totals(&a.interest),
            gross_dividends: money_totals(&a.dividends),
            realized_results: money_totals(&a.results),
            net_cash: money_totals(&a.net),
            by_instrument: return_details(&a.return_details),
        },
        costs_and_withholding: CostSection {
            fees_and_commissions: money_totals(&a.fees),
            withholding: money_totals(&a.withholding),
            other_deductions: money_totals(&a.deductions),
            by_instrument: cost_details(&a.cost_details),
        },
        closing_positions: positions,
        pending_and_reconciliation: pending,
        cdt_provider_enrichments,
        errors: Vec::new(),
    };
    proof {
        reveal_strlit("tracky.investment-report.v1");
        reveal_strlit("reports investments");
    }
    Some(Ok(r))
}

/// The investment report over `from`..`to` for every currency and account.
pub fn report(from: &str, to: &str, inputs: &ReportInputs) -> (r: Result<InvestmentReportResponse, ReportError>)
    requires
        forall|f: ReportFilters| selects(f, None, Seq::<String>::empty()) ==> report_can_run(from@, to@, *inputs, f),
    ensures
        exists|f: ReportFilters| selects(f, None, Seq::<String>::empty()) && report_outcome(r, from@, to@, *inputs, f),
{
    let none: Vec<String> = Vec::new();
    assert(none@ =~= Seq::<String>::empty());
    report_filtered(from, to, None, &none, inputs)
}

/// Filters that cover every account and currency.
pub open spec fn covers_all(f: ReportFilters) -> bool {
    f.currency is None && f.account_ids@.len() == 0
}

/// Checks that every brokerage operation through some date can be
/// attributed: replays them all, for every account and currency, from the
/// earliest date.
pub fn validate_brokerage_attribution(rows: &Vec<BrokerageReplayRow>) -> (r: Result<(), ReportError>)
    requires
        forall|f: ReportFilters| covers_all(f) ==> spec_replay(start_replay(empty_aggregation()), rows@, rows@.len(),
            "0001-01-01"@, f) != Err::<ReplayView, Halt>(Halt::Panic),
    ensures
        exists|f: ReportFilters| covers_all(f) && match spec_replay(start_replay(empty_aggregation()), rows@, rows@.len(), "0001-01-01"@, f) {
            Ok(_) => r is Ok,
            Err(h) => h matches Halt::Failure(e) && r == Err::<(), ReportError>(e),
        },
{
    let filters = ReportFilters::everything();
    let mut st = ReplayState::new();
    assert(st.view() == start_replay(empty_aggregation()));
    assert(covers_all(filters));
    replay_brokerage(&mut st, rows, "0001-01-01", &filters)
}

} // verus!
