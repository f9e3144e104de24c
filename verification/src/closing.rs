//! The closing state of an investment report: what is still pending at the
//! end of the range (unallocated contributions, undated acquisitions,
//! provider events awaiting review, reconciliation findings) and the
//! positions held then.
use vstd::prelude::*;
use crate::brokerage::in_i64;
use crate::cdt::{copy_opt, opt_seq};
use crate::ordered::{kv, KeyedEntry, SortedMap};
use crate::replay::key_of;
use crate::reports::{key_currency, MoneyTotal, ReportError, ReportFilters};
use crate::review::owned;
use crate::text::{byte_boundary, byte_prefix, prefix_bytes, push_str, str_eq};

verus! {

/// A dated contribution allocation whose acquisition has no effective date.
pub struct UndatedAllocation {
    pub allocation_id: String,
    pub account_id: String,
    pub currency: String,
}

/// A contribution posted by the end of the range, with the cash of one of
/// its current allocations effective by then (if any).
pub struct ContributionAllocationRow {
    pub posted_date: String,
    pub contribution_id: String,
    pub account_id: String,
    pub currency: String,
    pub signed_amount_minor: i64,
    pub allocated_minor: Option<i64>,
}

/// A contribution not yet fully allocated.
pub struct PendingAllocation {
    pub contribution_id: String,
    pub currency: String,
    pub contributed_minor: i64,
    pub allocated_minor: i64,
    pub unallocated_minor: i64,
    pub status: String,
}

/// A provider event still awaiting review.
pub struct PendingProviderEvent {
    pub event_id: String,
    pub provider: String,
    pub effective_date: String,
    pub currency: String,
    pub event_type: String,
}

/// What remains open at the end of a report range.
pub struct PendingSection {
    pub allocations: Vec<PendingAllocation>,
    pub undated_acquisition_ids: Vec<String>,
    pub unattributed_withdrawals: Vec<MoneyTotal>,
    pub provider_events: Vec<PendingProviderEvent>,
    pub missing_snapshot_positions: Vec<String>,
    pub unreconciled_differences: Vec<String>,
    pub missing_valuations: Vec<String>,
    pub stale_valuations: Vec<String>,
}

/// The texts of a list of strings.
pub open spec fn texts(v: Seq<String>) -> Seq<Seq<char>> {
    v.map_values(|s: String| s@)
}

// ---------------------------------------------------------------------
// Undated acquisitions and pending provider events.

/// The ids of the covered undated allocations, in order.
pub open spec fn spec_undated(rows: Seq<UndatedAllocation>, f: ReportFilters) -> Seq<Seq<char>>
    decreases rows.len(),
{
    if rows.len() == 0 {
        seq![]
    } else {
        let prev = spec_undated(rows.drop_last(), f);
        let r = rows.last();
        if f.spec_includes(r.account_id@, r.currency@) { prev.push(r.allocation_id@) } else { prev }
    }
}

/// The ids of the undated allocations that the filters cover.
pub fn undated_ids(rows: &Vec<UndatedAllocation>, filters: &ReportFilters) -> (r: Vec<String>)
    ensures
        texts(r@) == spec_undated(rows@, *filters),
{
    let mut out: Vec<String> = Vec::new();
    let mut i: usize = 0;
    while i < rows.len()
        invariant
            i <= rows@.len(),
            texts(out@) == spec_undated(rows@.subrange(0, i as int), *filters),
        decreases rows.len() - i,
    {
        assert(rows@.subrange(0, i + 1).drop_last() =~= rows@.subrange(0, i as int));
        let r = &rows[i];
        if filters.includes(r.account_id.as_str(), r.currency.as_str()) {
            out.push(r.allocation_id.clone());
        }
        assert(texts(out@) =~= spec_undated(rows@.subrange(0, i + 1), *filters));
        i = i + 1;
    }
    assert(rows@.subrange(0, rows@.len() as int) =~= rows@);
    out
}

/// The pending provider events whose currency the filters cover, in order.
pub open spec fn spec_pending_events(events: Seq<PendingProviderEvent>, f: ReportFilters) -> Seq<PendingProviderEvent>
    decreases events.len(),
{
    if events.len() == 0 {
        seq![]
    } else {
        let prev = spec_pending_events(events.drop_last(), f);
        let e = events.last();
        if f.spec_includes_currency(e.currency@) { prev.push(e) } else { prev }
    }
}

fn copy_event(e: &PendingProviderEvent) -> (r: PendingProviderEvent)
    ensures
        r == *e,
{
    PendingProviderEvent {
        event_id: e.event_id.clone(),
        provider: e.provider.clone(),
        effective_date: e.effective_date.clone(),
        currency: e.currency.clone(),
        event_type: e.event_type.clone(),
    }
}

/// The pending provider events in a covered currency.
pub fn pending_events(events: &Vec<PendingProviderEvent>, filters: &ReportFilters) -> (r: Vec<PendingProviderEvent>)
    ensures
        r@ == spec_pending_events(events@, *filters),
{
    let mut out: Vec<PendingProviderEvent> = Vec::new();
    let mut i: usize = 0;
    while i < events.len()
        invariant
            i <= events@.len(),
            out@ == spec_pending_events(events@.subrange(0, i as int), *filters),
        decreases events.len() - i,
    {
        assert(events@.subrange(0, i + 1).drop_last() =~= events@.subrange(0, i as int));
        let e = &events[i];
        if filters.includes_currency(e.currency.as_str()) {
            out.push(copy_event(e));
        }
        i = i + 1;
    }
    assert(events@.subrange(0, events@.len() as int) =~= events@);
    out
}

// ---------------------------------------------------------------------
// Contributions not fully allocated.

/// A contribution's running tally: its id, currency, contributed amount
/// and the cash allocated from it so far.
pub struct AllocationTally {
    pub contribution_id: String,
    pub currency: String,
    pub contributed: i64,
    pub allocated: i64,
}

pub open spec fn tally_key(r: ContributionAllocationRow) -> Seq<Option<Seq<char>>> {
    seq![Some(r.posted_date@), Some(r.contribution_id@)]
}

/// The tallies of the covered contributions, keyed by posting date and id:
/// each contributed amount is the negated signed amount, and the cash of
/// each allocation row is added to the contribution's tally; `None` when an
/// amount leaves `i64`.
pub open spec fn spec_tally(rows: Seq<ContributionAllocationRow>, f: ReportFilters) -> Option<Map<Seq<Option<Seq<char>>>, (Seq<char>, Seq<char>, i64, i64)>>
    decreases rows.len(),
{
    if rows.len() == 0 {
        Some(Map::empty())
    } else {
        match spec_tally(rows.drop_last(), f) {
            None => None,
            Some(m) => {
                let r = rows.last();
                if !f.spec_includes(r.account_id@, r.currency@) {
                    Some(m)
                } else if !in_i64(-r.signed_amount_minor) {
                    None
                } else {
                    let k = tally_key(r);
                    let t = if m.contains_key(k) { m[k] } else {
                        (r.contribution_id@, r.currency@, (-r.signed_amount_minor) as i64, 0i64)
                    };
                    let more: int = match r.allocated_minor { Some(a) => a as int, None => 0 };
                    if !in_i64(t.3 + more) {
                        None
                    } else {
                        Some(m.insert(k, (t.0, t.1, t.2, (t.3 + more) as i64)))
                    }
                }
            },
        }
    }
}

pub open spec fn tally_view(t: SortedMap<AllocationTally>) -> Map<Seq<Option<Seq<char>>>, (Seq<char>, Seq<char>, i64, i64)> {
    t@.map_values(|v: AllocationTally| (v.contribution_id@, v.currency@, v.contributed, v.allocated))
}

/// Tallies the covered contributions and their allocated cash.
pub fn tally_allocations(rows: &Vec<ContributionAllocationRow>, filters: &ReportFilters) -> (r: Result<SortedMap<AllocationTally>, ReportError>)
    ensures
        match spec_tally(rows@, *filters) {
            Some(m) => r matches Ok(t) && t.wf() && tally_view(t) == m,
            None => r == Err::<SortedMap<AllocationTally>, ReportError>(ReportError::AmountOverflow),
        },
{
    let mut t: SortedMap<AllocationTally> = SortedMap::new();
    let mut i: usize = 0;
    assert(tally_view(t) =~= Map::empty());
    while i < rows.len()
        invariant
            i <= rows@.len(),
            t.wf(),
            spec_tally(rows@.subrange(0, i as int), *filters) == Some(tally_view(t)),
        decreases rows.len() - i,
    {
        let ghost pre = rows@.subrange(0, i + 1);
        assert(pre.drop_last() =~= rows@.subrange(0, i as int));
        let r = &rows[i];
        if filters.includes(r.account_id.as_str(), r.currency.as_str()) {
            let contributed = match negated(r.signed_amount_minor) {
                Some(x) => x,
                None => {
                    assert(spec_tally(pre, *filters) is None);
                    proof { lemma_tally_none_stays(rows@, *filters, (i + 1) as nat); }
                    return Err(ReportError::AmountOverflow);
                },
            };
            let k = key_of(vec![Some(r.posted_date.as_str()), Some(r.contribution_id.as_str())]);
            assert(kv(k) =~= tally_key(*r));
            let more: i64 = match r.allocated_minor { Some(a) => a, None => 0 };
            match t.find(&k) {
                Some(j) => {
                    proof { t.lemma_view_at(j as int); }
                    let current = &t.entries[j].value;
                    match current.allocated.checked_add(more) {
                        Some(sum) => {
                            let v = AllocationTally {
                                contribution_id: current.contribution_id.clone(),
                                currency: current.currency.clone(),
                                contributed: current.contributed,
                                allocated: sum,
                            };
                            t.set_value(j, v);
                            assert(tally_view(t) =~= spec_tally(pre, *filters)->0);
                        },
                        None => {
                            assert(spec_tally(pre, *filters) is None);
                            proof { lemma_tally_none_stays(rows@, *filters, (i + 1) as nat); }
                            return Err(ReportError::AmountOverflow);
                        },
                    }
                },
                None => {
                    match 0i64.checked_add(more) {
                        Some(sum) => {
                            let v = AllocationTally {
                                contribution_id: r.contribution_id.clone(),
                                currency: r.currency.clone(),
                                contributed,
                                allocated: sum,
                            };
                            t.insert_new(k, v);
                            assert(tally_view(t) =~= spec_tally(pre, *filters)->0);
                        },
                        None => {
                            return Err(ReportError::AmountOverflow);
                        },
                    }
                },
            }
        }
        i = i + 1;
    }
    assert(rows@.subrange(0, rows@.len() as int) =~= rows@);
    Ok(t)
}

/// `-x`, or `None` when it leaves `i64`.
pub fn negated(x: i64) -> (r: Option<i64>)
    ensures
        match r {
            Some(v) => v == -x,
            None => !in_i64(-x),
        },
{
    if x == i64::MIN { None } else { Some(-x) }
}

proof fn lemma_tally_none_stays(rows: Seq<ContributionAllocationRow>, f: ReportFilters, n: nat)
    requires
        n <= rows.len(),
        spec_tally(rows.subrange(0, n as int), f) is None,
    ensures
        spec_tally(rows, f) is None,
    decreases rows.len() - n,
{
    if n < rows.len() {
        assert(rows.subrange(0, (n + 1) as int).drop_last() =~= rows.subrange(0, n as int));
        lemma_tally_none_stays(rows, f, n + 1);
    } else {
        assert(rows.subrange(0, n as int) =~= rows);
    }
}

/// What a pending allocation shows: contribution id, currency, contributed,
/// allocated and unallocated cash, and its status text.
pub open spec fn pending_view(p: PendingAllocation) -> (Seq<char>, Seq<char>, i64, i64, i64, Seq<char>) {
    (p.contribution_id@, p.currency@, p.contributed_minor, p.allocated_minor, p.unallocated_minor, p.status@)
}

/// The tallies, in key order, that are not fully allocated: unallocated
/// is contributed less allocated, and the status is `pending` when nothing
/// was allocated and `partial` otherwise; `None` when a difference leaves
/// `i64`.
pub open spec fn spec_pending(es: Seq<KeyedEntry<AllocationTally>>) -> Option<Seq<(Seq<char>, Seq<char>, i64, i64, i64, Seq<char>)>>
    decreases es.len(),
{
    if es.len() == 0 {
        Some(seq![])
    } else {
        match spec_pending(es.drop_last()) {
            None => None,
            Some(prev) => {
                let t = es.last().value;
                if !(t.allocated < t.contributed) {
                    Some(prev)
                } else if !in_i64(t.contributed - t.allocated) {
                    None
                } else {
                    Some(prev.push((t.contribution_id@, t.currency@, t.contributed, t.allocated,
                        (t.contributed - t.allocated) as i64,
                        if t.allocated == 0 { "pending"@ } else { "partial"@ })))
                }
            },
        }
    }
}

proof fn lemma_pending_none_stays(es: Seq<KeyedEntry<AllocationTally>>, n: nat)
    requires
        n <= es.len(),
        spec_pending(es.subrange(0, n as int)) is None,
    ensures
        spec_pending(es) is None,
    decreases es.len() - n,
{
    if n < es.len() {
        assert(es.subrange(0, (n + 1) as int).drop_last() =~= es.subrange(0, n as int));
        lemma_pending_none_stays(es, n + 1);
    } else {
        assert(es.subrange(0, n as int) =~= es);
    }
}

/// The contributions of a tally that are not fully allocated, in key order.
pub fn pending_allocations(t: &SortedMap<AllocationTally>) -> (r: Result<Vec<PendingAllocation>, ReportError>)
    ensures
        match spec_pending(t.entries@) {
            Some(s) => r matches Ok(v) && v@.map_values(|p: PendingAllocation| pending_view(p)) == s,
            None => r == Err::<Vec<PendingAllocation>, ReportError>(ReportError::AmountOverflow),
        },
{
    let mut out: Vec<PendingAllocation> = Vec::new();
    let mut i: usize = 0;
    while i < t.entries.len()
        invariant
            i <= t.entries@.len(),
            spec_pending(t.entries@.subrange(0, i as int)) == Some(out@.map_values(|p: PendingAllocation| pending_view(p))),
        decreases t.entries.len() - i,
    {
        let ghost pre = t.entries@.subrange(0, i + 1);
        assert(pre.drop_last() =~= t.entries@.subrange(0, i as int));
        let v = &t.entries[i].value;
        if v.allocated < v.contributed {
            let unallocated = match v.contributed.checked_sub(v.allocated) {
                Some(x) => x,
                None => {
                    proof { lemma_pending_none_stays(t.entries@, (i + 1) as nat); }
                    return Err(ReportError::AmountOverflow);
                },
            };
            let status = if v.allocated == 0 { owned("pending") } else { owned("partial") };
            out.push(PendingAllocation {
                contribution_id: v.contribution_id.clone(),
                currency: v.currency.clone(),
                contributed_minor: v.contributed,
                allocated_minor: v.allocated,
                unallocated_minor: unallocated,
                status,
            });
        }
        assert(out@.map_values(|p: PendingAllocation| pending_view(p)) =~= spec_pending(pre)->0);
        i = i + 1;
    }
    assert(t.entries@.subrange(0, t.entries@.len() as int) =~= t.entries@);
    Ok(out)
}

// ---------------------------------------------------------------------
// Closing positions.

/// An instrument's type.
pub struct InstrumentTypeRow {
    pub id: String,
    pub instrument_type: String,
}

/// The account, instrument (none for cash) and currency of a position.
pub struct SnapshotPositionKey {
    pub account_id: String,
    pub instrument_id: Option<String>,
    pub currency: String,
}

/// How one position of a snapshot compares with the position derived from
/// the ledger.
pub struct PositionReconciliation {
    pub account_id: String,
    pub instrument_id: Option<String>,
    pub currency: String,
    pub status: String,
    pub original_status: String,
    pub freshness: String,
    pub derived_quantity: Option<String>,
    pub observed_quantity: Option<String>,
    pub derived_historical_cost_minor: Option<i64>,
    pub cost_currency: Option<String>,
    pub observed_value_minor: Option<i64>,
    pub valuation_currency: Option<String>,
    pub original_quantity_difference: Option<String>,
    pub quantity_difference: Option<String>,
    pub original_value_difference_minor: Option<i64>,
    pub value_difference_minor: Option<i64>,
}

/// A snapshot effective by the end of the range and its comparison with
/// the ledger.
pub struct SnapshotComparison {
    pub positions: Vec<SnapshotPositionKey>,
    pub provider_effective_date: Option<String>,
    pub observed_at: String,
    pub reconciliations: Vec<PositionReconciliation>,
}

/// A position derived from the ledger at the end of the range.
pub struct DerivedClosingPosition {
    pub account_id: String,
    pub instrument_id: Option<String>,
    pub currency: String,
    pub quantity: Option<String>,
    pub historical_cost_minor: Option<i64>,
    pub cost_currency: Option<String>,
}

/// A position held at the end of the range.
pub struct ClosingPosition {
    pub account_id: String,
    pub instrument_id: Option<String>,
    pub instrument_type: Option<String>,
    pub quantity: Option<String>,
    pub historical_cost_minor: Option<i64>,
    pub cost_currency: Option<String>,
    pub observed_value_minor: Option<i64>,
    pub valuation_currency: Option<String>,
    pub effective_date: Option<String>,
    pub observed_at: Option<String>,
    pub freshness: String,
    pub reconciliation_status: String,
    pub original_status: Option<String>,
    pub original_quantity_difference: Option<String>,
    pub current_quantity_difference: Option<String>,
    pub original_value_difference_minor: Option<i64>,
    pub current_value_difference_minor: Option<i64>,
}

/// What a closing position shows.
pub struct ClosingPositionView {
    pub account_id: Seq<char>,
    pub instrument_id: Option<Seq<char>>,
    pub instrument_type: Option<Seq<char>>,
    pub quantity: Option<Seq<char>>,
    pub historical_cost_minor: Option<i64>,
    pub cost_currency: Option<Seq<char>>,
    pub observed_value_minor: Option<i64>,
    pub valuation_currency: Option<Seq<char>>,
    pub effective_date: Option<Seq<char>>,
    pub observed_at: Option<Seq<char>>,
    pub freshness: Seq<char>,
    pub reconciliation_status: Seq<char>,
    pub original_status: Option<Seq<char>>,
    pub original_quantity_difference: Option<Seq<char>>,
    pub current_quantity_difference: Option<Seq<char>>,
    pub original_value_difference_minor: Option<i64>,
    pub current_value_difference_minor: Option<i64>,
}

impl ClosingPosition {
    pub open spec fn view(&self) -> ClosingPositionView {
        ClosingPositionView {
            account_id: self.account_id@,
            instrument_id: opt_seq(self.instrument_id),
            instrument_type: opt_seq(self.instrument_type),
            quantity: opt_seq(self.quantity),
            historical_cost_minor: self.historical_cost_minor,
            cost_currency: opt_seq(self.cost_currency),
            observed_value_minor: self.observed_value_minor,
            valuation_currency: opt_seq(self.valuation_currency),
            effective_date: opt_seq(self.effective_date),
            observed_at: opt_seq(self.observed_at),
            freshness: self.freshness@,
            reconciliation_status: self.reconciliation_status@,
            original_status: opt_seq(self.original_status),
            original_quantity_difference: opt_seq(self.original_quantity_difference),
            current_quantity_difference: opt_seq(self.current_quantity_difference),
            original_value_difference_minor: self.original_value_difference_minor,
            current_value_difference_minor: self.current_value_difference_minor,
        }
    }
}

/// The key of a position: account, instrument (none for cash), currency.
pub open spec fn position_key(account: Seq<char>, instrument: Option<Seq<char>>, currency: Seq<char>) -> Seq<Option<Seq<char>>> {
    seq![Some(account), instrument, Some(currency)]
}

/// The label of a position in the pending lists: `account:instrument:currency`
/// with `cash` for no instrument.
pub open spec fn position_label(account: Seq<char>, instrument: Option<Seq<char>>, currency: Seq<char>) -> Seq<char> {
    account + ":"@ + (match instrument { Some(i) => i, None => "cash"@ }) + ":"@ + currency
}

/// The type of the last instrument row with `id`.
pub open spec fn type_of(types: Seq<InstrumentTypeRow>, id: Seq<char>) -> Option<Seq<char>>
    decreases types.len(),
{
    if types.len() == 0 {
        None
    } else if types.last().id@ == id {
        Some(types.last().instrument_type@)
    } else {
        type_of(types.drop_last(), id)
    }
}

pub open spec fn instrument_type_of(types: Seq<InstrumentTypeRow>, instrument: Option<Seq<char>>) -> Option<Seq<char>> {
    match instrument {
        Some(id) => type_of(types, id),
        None => None,
    }
}

/// The date of a snapshot: its provider effective date, else the first ten
/// characters of the time it was observed.
pub open spec fn snapshot_date(s: SnapshotComparison) -> Seq<char> {
    match s.provider_effective_date {
        Some(d) => d@,
        None => byte_prefix(s.observed_at@, 10),
    }
}

/// A snapshot without a provider effective date is dated by the first ten
/// bytes of its observation time, which must end on a character boundary.
pub open spec fn snapshot_date_readable(s: SnapshotComparison) -> bool {
    s.provider_effective_date is None ==> byte_boundary(s.observed_at@, 10)
}

/// Whether every snapshot's date can be read (see `snapshot_date_readable`).
pub fn snapshot_dates_readable(snapshots: &Vec<SnapshotComparison>) -> (r: bool)
    ensures
        r == forall|i: int| 0 <= i < snapshots@.len() ==> snapshot_date_readable(#[trigger] snapshots@[i]),
{
    let mut i: usize = 0;
    while i < snapshots.len()
        invariant
            i <= snapshots@.len(),
            forall|k: int| 0 <= k < i ==> snapshot_date_readable(#[trigger] snapshots@[k]),
        decreases snapshots.len() - i,
    {
        let s = &snapshots[i];
        if s.provider_effective_date.is_none() && !crate::text::is_byte_boundary(s.observed_at.as_str(), 10) {
            assert(!snapshot_date_readable(snapshots@[i as int]));
            return false;
        }
        i = i + 1;
    }
    true
}

/// The closing position a reconciliation contributes.
pub open spec fn reconciled_view(s: SnapshotComparison, x: PositionReconciliation, types: Seq<InstrumentTypeRow>) -> ClosingPositionView {
    ClosingPositionView {
        account_id: x.account_id@,
        instrument_id: opt_seq(x.instrument_id),
        instrument_type: instrument_type_of(types, opt_seq(x.instrument_id)),
        quantity: match x.derived_quantity { Some(q) => Some(q@), None => opt_seq(x.observed_quantity) },
        historical_cost_minor: x.derived_historical_cost_minor,
        cost_currency: opt_seq(x.cost_currency),
        observed_value_minor: x.observed_value_minor,
        valuation_currency: opt_seq(x.valuation_currency),
        effective_date: Some(snapshot_date(s)),
        observed_at: Some(s.observed_at@),
        freshness: x.freshness@,
        reconciliation_status: x.status@,
        original_status: Some(x.original_status@),
        original_quantity_difference: opt_seq(x.original_quantity_difference),
        current_quantity_difference: opt_seq(x.quantity_difference),
        original_value_difference_minor: x.original_value_difference_minor,
        current_value_difference_minor: x.value_difference_minor,
    }
}

/// The closing position of a derived position no snapshot showed.
pub open spec fn derived_view(x: DerivedClosingPosition, types: Seq<InstrumentTypeRow>) -> ClosingPositionView {
    ClosingPositionView {
        account_id: x.account_id@,
        instrument_id: opt_seq(x.instrument_id),
        instrument_type: instrument_type_of(types, opt_seq(x.instrument_id)),
        quantity: opt_seq(x.quantity),
        historical_cost_minor: x.historical_cost_minor,
        cost_currency: opt_seq(x.cost_currency),
        observed_value_minor: None,
        valuation_currency: None,
        effective_date: None,
        observed_at: None,
        freshness: "unavailable"@,
        reconciliation_status: "no_snapshot"@,
        original_status: None,
        original_quantity_difference: None,
        current_quantity_difference: None,
        original_value_difference_minor: None,
        current_value_difference_minor: None,
    }
}

/// The positions found so far and the labels of each kind of finding.
pub struct ClosingView {
    pub positions: Map<Seq<Option<Seq<char>>>, ClosingPositionView>,
    pub missing_snapshot_positions: Seq<Seq<char>>,
    pub unreconciled_differences: Seq<Seq<char>>,
    pub missing_valuations: Seq<Seq<char>>,
    pub stale_valuations: Seq<Seq<char>>,
}

pub open spec fn key_observed(s: SnapshotComparison, k: Seq<Option<Seq<char>>>) -> bool {
    exists|i: int| 0 <= i < s.positions@.len()
        && position_key(s.positions@[i].account_id@, opt_seq(s.positions@[i].instrument_id), s.positions@[i].currency@) == k
}

pub open spec fn account_observed(s: SnapshotComparison, account: Seq<char>) -> bool {
    exists|i: int| 0 <= i < s.positions@.len() && (#[trigger] s.positions@[i]).account_id@ == account
}

/// One reconciliation of snapshot `s` applied to the closing state: a
/// covered position that the snapshot shows (or that is missing from an
/// account the snapshot shows) and that no newer snapshot placed is
/// recorded, and its label joins the list of its status (none for
/// `matched`; differences for any status not named).
pub open spec fn spec_reconcile(st: ClosingView, s: SnapshotComparison, x: PositionReconciliation, types: Seq<InstrumentTypeRow>, f: ReportFilters) -> ClosingView {
    let k = position_key(x.account_id@, opt_seq(x.instrument_id), x.currency@);
    if !f.spec_includes(x.account_id@, x.currency@) {
        st
    } else if !(key_observed(s, k) || (account_observed(s, x.account_id@) && x.status@ == "missing_snapshot_position"@))
        || st.positions.contains_key(k) {
        st
    } else {
        let l = position_label(x.account_id@, opt_seq(x.instrument_id), x.currency@);
        let st2 = if x.status@ == "missing_snapshot_position"@ {
            ClosingView { missing_snapshot_positions: st.missing_snapshot_positions.push(l), ..st }
        } else if x.status@ == "valuation_unavailable"@ {
            ClosingView { missing_valuations: st.missing_valuations.push(l), ..st }
        } else if x.status@ == "stale"@ {
            ClosingView { stale_valuations: st.stale_valuations.push(l), ..st }
        } else if x.status@ == "matched"@ {
            st
        } else {
            ClosingView { unreconciled_differences: st.unreconciled_differences.push(l), ..st }
        };
        ClosingView { positions: st2.positions.insert(k, reconciled_view(s, x, types)), ..st2 }
    }
}

/// The first `n` reconciliations of snapshot `s` applied in order.
pub open spec fn spec_snapshot(st: ClosingView, s: SnapshotComparison, n: nat, types: Seq<InstrumentTypeRow>, f: ReportFilters) -> ClosingView
    decreases n,
{
    if n == 0 || n > s.reconciliations@.len() {
        st
    } else {
        spec_reconcile(spec_snapshot(st, s, (n - 1) as nat, types, f), s, s.reconciliations@[n - 1], types, f)
    }
}

/// The snapshots applied in order, newest first.
pub open spec fn spec_snapshots(st: ClosingView, snaps: Seq<SnapshotComparison>, types: Seq<InstrumentTypeRow>, f: ReportFilters) -> ClosingView
    decreases snaps.len(),
{
    if snaps.len() == 0 {
        st
    } else {
        let s = snaps.last();
        spec_snapshot(spec_snapshots(st, snaps.drop_last(), types, f), s, s.reconciliations@.len(), types, f)
    }
}

/// A covered derived position that no snapshot placed is recorded as
/// unvalued and missing from the snapshots.
pub open spec fn spec_derived(st: ClosingView, x: DerivedClosingPosition, types: Seq<InstrumentTypeRow>, f: ReportFilters) -> ClosingView {
    let k = position_key(x.account_id@, opt_seq(x.instrument_id), x.currency@);
    if !f.spec_includes(x.account_id@, x.currency@) || st.positions.contains_key(k) {
        st
    } else {
        let l = position_label(x.account_id@, opt_seq(x.instrument_id), x.currency@);
        ClosingView {
            positions: st.positions.insert(k, derived_view(x, types)),
            missing_valuations: st.missing_valuations.push(l),
            missing_snapshot_positions: st.missing_snapshot_positions.push(l),
            ..st
        }
    }
}

pub open spec fn spec_all_derived(st: ClosingView, xs: Seq<DerivedClosingPosition>, types: Seq<InstrumentTypeRow>, f: ReportFilters) -> ClosingView
    decreases xs.len(),
{
    if xs.len() == 0 {
        st
    } else {
        spec_derived(spec_all_derived(st, xs.drop_last(), types, f), xs.last(), types, f)
    }
}

pub open spec fn empty_closing() -> ClosingView {
    ClosingView {
        positions: Map::empty(),
        missing_snapshot_positions: seq![],
        unreconciled_differences: seq![],
        missing_valuations: seq![],
        stale_valuations: seq![],
    }
}

/// The closing state being built.
pub struct ClosingState {
    pub positions: SortedMap<ClosingPosition>,
    pub missing_snapshot_positions: Vec<String>,
    pub unreconciled_differences: Vec<String>,
    pub missing_valuations: Vec<String>,
    pub stale_valuations: Vec<String>,
}

impl ClosingState {
    pub open spec fn view(&self) -> ClosingView {
        ClosingView {
            positions: self.positions@.map_values(|p: ClosingPosition| p.view()),
            missing_snapshot_positions: texts(self.missing_snapshot_positions@),
            unreconciled_differences: texts(self.unreconciled_differences@),
            missing_valuations: texts(self.missing_valuations@),
            stale_valuations: texts(self.stale_valuations@),
        }
    }
}

/// The label `account:instrument:currency` (`cash` for no instrument).
pub fn label_of(account: &str, instrument: &Option<String>, currency: &str) -> (r: String)
    ensures
        r@ == position_label(account@, opt_seq(*instrument), currency@),
{
    let mut out = owned(account);
    push_str(&mut out, ":");
    match instrument {
        Some(i) => push_str(&mut out, i.as_str()),
        None => push_str(&mut out, "cash"),
    }
    push_str(&mut out, ":");
    push_str(&mut out, currency);
    proof {
        reveal_strlit(":");
        reveal_strlit("cash");
    }
    out
}

/// The type of the instrument `id`, from the last row naming it.
pub fn lookup_type(types: &Vec<InstrumentTypeRow>, instrument: &Option<String>) -> (r: Option<String>)
    ensures
        opt_seq(r) == instrument_type_of(types@, opt_seq(*instrument)),
{
    match instrument {
        None => None,
        Some(id) => {
            let mut i: usize = types.len();
            assert(types@.subrange(0, i as int) =~= types@);
            while i > 0
                invariant
                    i <= types@.len(),
                    opt_seq(*instrument) == Some(id@),
                    type_of(types@, id@) == type_of(types@.subrange(0, i as int), id@),
                decreases i,
            {
                let ghost pre = types@.subrange(0, i as int);
                assert(pre.drop_last() =~= types@.subrange(0, i - 1));
                if str_eq(types[i - 1].id.as_str(), id.as_str()) {
                    assert(pre.last() == types@[i - 1]);
                    assert(type_of(pre, id@) == Some(types@[i - 1].instrument_type@));
                    let t = types[i - 1].instrument_type.clone();
                    return Some(t);
                }
                i = i - 1;
            }
            None
        },
    }
}

fn pos_key(account: &str, instrument: &Option<String>, currency: &str) -> (r: Vec<Option<String>>)
    ensures
        kv(r) == position_key(account@, opt_seq(*instrument), currency@),
{
    let i: Option<&str> = match instrument {
        Some(x) => Some(x.as_str()),
        None => None,
    };
    let k = key_of(vec![Some(account), i, Some(currency)]);
    assert(kv(k) =~= position_key(account@, opt_seq(*instrument), currency@));
    k
}

fn observes_key(s: &SnapshotComparison, k: &Vec<Option<String>>) -> (r: bool)
    ensures
        r == key_observed(*s, kv(*k)),
{
    let mut i: usize = 0;
    while i < s.positions.len()
        invariant
            i <= s.positions@.len(),
            forall|j: int| 0 <= j < i ==> position_key(s.positions@[j].account_id@, opt_seq(s.positions@[j].instrument_id), s.positions@[j].currency@) != kv(*k),
        decreases s.positions.len() - i,
    {
        let p = &s.positions[i];
        let pk = pos_key(p.account_id.as_str(), &p.instrument_id, p.currency.as_str());
        if crate::ordered::key_equal(&pk, k) {
            return true;
        }
        i = i + 1;
    }
    false
}

fn observes_account(s: &SnapshotComparison, account: &str) -> (r: bool)
    ensures
        r == account_observed(*s, account@),
{
    let mut i: usize = 0;
    while i < s.positions.len()
        invariant
            i <= s.positions@.len(),
            forall|j: int| 0 <= j < i ==> (#[trigger] s.positions@[j]).account_id@ != account@,
        decreases s.positions.len() - i,
    {
        if str_eq(s.positions[i].account_id.as_str(), account) {
            assert(s.positions@[i as int].account_id@ == account@);
            return true;
        }
        i = i + 1;
    }
    false
}

fn date_of(s: &SnapshotComparison) -> (r: String)
    requires
        snapshot_date_readable(*s),
    ensures
        r@ == snapshot_date(*s),
{
    match &s.provider_effective_date {
        Some(d) => d.clone(),
        None => prefix_bytes(s.observed_at.as_str(), 10),
    }
}

fn reconciled(s: &SnapshotComparison, x: &PositionReconciliation, types: &Vec<InstrumentTypeRow>) -> (r: ClosingPosition)
    requires
        snapshot_date_readable(*s),
    ensures
        r.view() == reconciled_view(*s, *x, types@),
{
    let quantity = match &x.derived_quantity {
        Some(q) => Some(q.clone()),
        None => copy_opt(&x.observed_quantity),
    };
    ClosingPosition {
        account_id: x.account_id.clone(),
        instrument_id: copy_opt(&x.instrument_id),
        instrument_type: lookup_type(types, &x.instrument_id),
        quantity,
        historical_cost_minor: x.derived_historical_cost_minor,
        cost_currency: copy_opt(&x.cost_currency),
        observed_value_minor: x.observed_value_minor,
        valuation_currency: copy_opt(&x.valuation_currency),
        effective_date: Some(date_of(s)),
        observed_at: Some(s.observed_at.clone()),
        freshness: x.freshness.clone(),
        reconciliation_status: x.status.clone(),
        original_status: Some(x.original_status.clone()),
        original_quantity_difference: copy_opt(&x.original_quantity_difference),
        current_quantity_difference: copy_opt(&x.quantity_difference),
        original_value_difference_minor: x.original_value_difference_minor,
        current_value_difference_minor: x.value_difference_minor,
    }
}

fn derived(x: &DerivedClosingPosition, types: &Vec<InstrumentTypeRow>) -> (r: ClosingPosition)
    ensures
        r.view() == derived_view(*x, types@),
{
    let r = ClosingPosition {
        account_id: x.account_id.clone(),
        instrument_id: copy_opt(&x.instrument_id),
        instrument_type: lookup_type(types, &x.instrument_id),
        quantity: copy_opt(&x.quantity),
        historical_cost_minor: x.historical_cost_minor,
        cost_currency: copy_opt(&x.cost_currency),
        observed_value_minor: None,
        valuation_currency: None,
        effective_date: None,
        observed_at: None,
        freshness: owned("unavailable"),
        reconciliation_status: owned("no_snapshot"),
        original_status: None,
        original_quantity_difference: None,
        current_quantity_difference: None,
        original_value_difference_minor: None,
        current_value_difference_minor: None,
    };
    r
}

proof fn lemma_insert_view(m: SortedMap<ClosingPosition>, k: Seq<Option<Seq<char>>>, p: ClosingPosition)
    ensures
        m@.insert(k, p).map_values(|q: ClosingPosition| q.view()) == m@.map_values(|q: ClosingPosition| q.view()).insert(k, p.view()),
{
    assert(m@.insert(k, p).map_values(|q: ClosingPosition| q.view()) =~= m@.map_values(|q: ClosingPosition| q.view()).insert(k, p.view()));
}

/// Applies one reconciliation of snapshot `s` (see `spec_reconcile`).
pub fn reconcile_step(st: &mut ClosingState, s: &SnapshotComparison, x: &PositionReconciliation, types: &Vec<InstrumentTypeRow>, filters: &ReportFilters)
    requires
        old(st).positions.wf(),
        snapshot_date_readable(*s),
    ensures
        final(st).positions.wf(),
        final(st).view() == spec_reconcile(old(st).view(), *s, *x, types@, *filters),
{
    if !filters.includes(x.account_id.as_str(), x.currency.as_str()) {
        return;
    }
    let k = pos_key(x.account_id.as_str(), &x.instrument_id, x.currency.as_str());
    let status = x.status.as_str();
    let observed = observes_key(s, &k)
        || (observes_account(s, x.account_id.as_str()) && str_eq(status, "missing_snapshot_position"));
    let found = st.positions.find(&k);
    proof {
        if found is Some {
            st.positions.lemma_view_at(found->0 as int);
        }
    }
    if !observed || found.is_some() {
        return;
    }
    let l = label_of(x.account_id.as_str(), &x.instrument_id, x.currency.as_str());
    if str_eq(status, "missing_snapshot_position") {
        st.missing_snapshot_positions.push(l);
    } else if str_eq(status, "valuation_unavailable") {
        st.missing_valuations.push(l);
    } else if str_eq(status, "stale") {
        st.stale_valuations.push(l);
    } else if str_eq(status, "matched") {
    } else {
        st.unreconciled_differences.push(l);
    }
    let p = reconciled(s, x, types);
    proof { lemma_insert_view(st.positions, kv(k), p); }
    st.positions.insert_new(k, p);
    assert(texts(st.missing_snapshot_positions@) =~= spec_reconcile(old(st).view(), *s, *x, types@, *filters).missing_snapshot_positions);
    assert(texts(st.missing_valuations@) =~= spec_reconcile(old(st).view(), *s, *x, types@, *filters).missing_valuations);
    assert(texts(st.stale_valuations@) =~= spec_reconcile(old(st).view(), *s, *x, types@, *filters).stale_valuations);
    assert(texts(st.unreconciled_differences@) =~= spec_reconcile(old(st).view(), *s, *x, types@, *filters).unreconciled_differences);
}

/// Applies one derived position (see `spec_derived`).
pub fn derived_step(st: &mut ClosingState, x: &DerivedClosingPosition, types: &Vec<InstrumentTypeRow>, filters: &ReportFilters)
    requires
        old(st).positions.wf(),
    ensures
        final(st).positions.wf(),
        final(st).view() == spec_derived(old(st).view(), *x, types@, *filters),
{
    if !filters.includes(x.account_id.as_str(), x.currency.as_str()) {
        return;
    }
    let k = pos_key(x.account_id.as_str(), &x.instrument_id, x.currency.as_str());
    let found = st.positions.find(&k);
    proof {
        if found is Some {
            st.positions.lemma_view_at(found->0 as int);
        }
    }
    if found.is_some() {
        return;
    }
    let l = label_of(x.account_id.as_str(), &x.instrument_id, x.currency.as_str());
    let l2 = l.clone();
    st.missing_valuations.push(l);
    st.missing_snapshot_positions.push(l2);
    let p = derived(x, types);
    proof { lemma_insert_view(st.positions, kv(k), p); }
    st.positions.insert_new(k, p);
    assert(texts(st.missing_snapshot_positions@) =~= spec_derived(old(st).view(), *x, types@, *filters).missing_snapshot_positions);
    assert(texts(st.missing_valuations@) =~= spec_derived(old(st).view(), *x, types@, *filters).missing_valuations);
}

/// Applies every reconciliation of snapshot `s`, in order.
pub fn snapshot_step(st: &mut ClosingState, s: &SnapshotComparison, types: &Vec<InstrumentTypeRow>, filters: &ReportFilters)
    requires
        old(st).positions.wf(),
        snapshot_date_readable(*s),
    ensures
        final(st).positions.wf(),
        final(st).view() == spec_snapshot(old(st).view(), *s, s.reconciliations@.len(), types@, *filters),
{
    let ghost start = st.view();
    let mut i: usize = 0;
    while i < s.reconciliations.len()
        invariant
            i <= s.reconciliations@.len(),
            st.positions.wf(),
            snapshot_date_readable(*s),
            start == old(st).view(),
            st.view() == spec_snapshot(start, *s, i as nat, types@, *filters),
        decreases s.reconciliations.len() - i,
    {
        reconcile_step(st, s, &s.reconciliations[i], types, filters);
        i = i + 1;
    }
}

/// Applies the snapshots in order.
pub fn snapshots_step(st: &mut ClosingState, snaps: &Vec<SnapshotComparison>, types: &Vec<InstrumentTypeRow>, filters: &ReportFilters)
    requires
        old(st).positions.wf(),
        forall|i: int| 0 <= i < snaps@.len() ==> snapshot_date_readable(#[trigger] snaps@[i]),
    ensures
        final(st).positions.wf(),
        final(st).view() == spec_snapshots(old(st).view(), snaps@, types@, *filters),
{
    let ghost start = st.view();
    let mut i: usize = 0;
    while i < snaps.len()
        invariant
            i <= snaps@.len(),
            st.positions.wf(),
            forall|j: int| 0 <= j < snaps@.len() ==> snapshot_date_readable(#[trigger] snaps@[j]),
            start == old(st).view(),
            st.view() == spec_snapshots(start, snaps@.subrange(0, i as int), types@, *filters),
        decreases snaps.len() - i,
    {
        assert(snaps@.subrange(0, i + 1).drop_last() =~= snaps@.subrange(0, i as int));
        snapshot_step(st, &snaps[i], types, filters);
        i = i + 1;
    }
    assert(snaps@.subrange(0, snaps@.len() as int) =~= snaps@);
}

/// Applies the derived positions in order.
pub fn derived_positions_step(st: &mut ClosingState, xs: &Vec<DerivedClosingPosition>, types: &Vec<InstrumentTypeRow>, filters: &ReportFilters)
    requires
        old(st).positions.wf(),
    ensures
        final(st).positions.wf(),
        final(st).view() == spec_all_derived(old(st).view(), xs@, types@, *filters),
{
    let ghost start = st.view();
    let mut i: usize = 0;
    while i < xs.len()
        invariant
            i <= xs@.len(),
            st.positions.wf(),
            start == old(st).view(),
            st.view() == spec_all_derived(start, xs@.subrange(0, i as int), types@, *filters),
        decreases xs.len() - i,
    {
        assert(xs@.subrange(0, i + 1).drop_last() =~= xs@.subrange(0, i as int));
        derived_step(st, &xs[i], types, filters);
        i = i + 1;
    }
    assert(xs@.subrange(0, xs@.len() as int) =~= xs@);
}

/// What the closing state is computed from, as storage has it.
pub struct ClosingInputs {
    pub undated: Vec<UndatedAllocation>,
    pub contributions: Vec<ContributionAllocationRow>,
    pub provider_events: Vec<PendingProviderEvent>,
    pub instrument_types: Vec<InstrumentTypeRow>,
    pub snapshots: Vec<SnapshotComparison>,
    pub derived: Vec<DerivedClosingPosition>,
}

/// The positions at the end of the range and the findings about them:
/// the snapshots (newest first) and then the derived positions.
pub open spec fn spec_closing(inputs: ClosingInputs, f: ReportFilters) -> ClosingView {
    spec_all_derived(
        spec_snapshots(empty_closing(), inputs.snapshots@, inputs.instrument_types@, f),
        inputs.derived@,
        inputs.instrument_types@,
        f,
    )
}

/// The closing positions of a map, in key order.
pub fn position_values(m: SortedMap<ClosingPosition>) -> (r: Vec<ClosingPosition>)
    requires
        m.wf(),
    ensures
        r@.len() == m.entries@.len(),
        forall|i: int| 0 <= i < r@.len() ==> #[trigger] r@[i] == m.entries@[i].value,
{
    let mut entries = m.entries;
    let mut out: Vec<ClosingPosition> = Vec::new();
    let ghost all = entries@;
    while entries.len() > 0
        invariant
            out@.len() + entries@.len() == all.len(),
            forall|i: int| 0 <= i < out@.len() ==> #[trigger] out@[i] == all[i].value,
            forall|i: int| 0 <= i < entries@.len() ==> #[trigger] entries@[i] == all[out@.len() + i],
        decreases entries.len(),
    {
        let e = entries.remove(0);
        out.push(e.value);
    }
    out
}

/// `v` lists the totals of `m` in key order.
pub open spec fn totals_of(v: Seq<MoneyTotal>, m: Map<Seq<Option<Seq<char>>>, i64>) -> bool {
    exists|s: SortedMap<i64>| #![trigger s.wf()] s.wf() && s@ == m && v.len() == s.entries@.len()
        && forall|i: int| 0 <= i < v.len() ==> (#[trigger] v[i]).currency@ == key_currency(s.key_at(i))
            && v[i].amount_minor == m[s.key_at(i)]
}

/// What the closing state of a report is: an error when an allocation
/// amount leaves `i64`; else the unallocated contributions, the undated
/// acquisitions, the unattributed withdrawals given, the provider events
/// awaiting review, and the positions (in key order) with the findings of
/// `spec_closing`.
pub open spec fn closing_result(r: Result<(PendingSection, Vec<ClosingPosition>), ReportError>, unattributed: Map<Seq<Option<Seq<char>>>, i64>, inputs: ClosingInputs, f: ReportFilters) -> bool {
    match spec_tally(inputs.contributions@, f) {
        None => r == Err::<(PendingSection, Vec<ClosingPosition>), ReportError>(ReportError::AmountOverflow),
        Some(tally) => exists|t: SortedMap<AllocationTally>| #![trigger tally_view(t)] t.wf() && tally_view(t) == tally && match spec_pending(t.entries@) {
            None => r == Err::<(PendingSection, Vec<ClosingPosition>), ReportError>(ReportError::AmountOverflow),
            Some(pending) => r matches Ok((p, positions)) && {
                let c = spec_closing(inputs, f);
                &&& p.allocations@.map_values(|a: PendingAllocation| pending_view(a)) == pending
                &&& texts(p.undated_acquisition_ids@) == spec_undated(inputs.undated@, f)
                &&& totals_of(p.unattributed_withdrawals@, unattributed)
                &&& p.provider_events@ == spec_pending_events(inputs.provider_events@, f)
                &&& texts(p.missing_snapshot_positions@) == c.missing_snapshot_positions
                &&& texts(p.unreconciled_differences@) == c.unreconciled_differences
                &&& texts(p.missing_valuations@) == c.missing_valuations
                &&& texts(p.stale_valuations@) == c.stale_valuations
                &&& exists|m: SortedMap<ClosingPosition>| #![trigger m.wf()] m.wf()
                    && m@.map_values(|q: ClosingPosition| q.view()) == c.positions
                    && positions@.len() == m.entries@.len()
                    && forall|i: int| 0 <= i < positions@.len() ==> #[trigger] positions@[i] == m.entries@[i].value
            },
        },
    }
}

/// The pending section and closing positions of a report (see
/// `closing_result`).
pub fn closing_state(unattributed_withdrawals: &SortedMap<i64>, filters: &ReportFilters, inputs: &ClosingInputs)
    -> (r: Result<(PendingSection, Vec<ClosingPosition>), ReportError>)
    requires
        unattributed_withdrawals.wf(),
        forall|i: int| 0 <= i < inputs.snapshots@.len() ==> snapshot_date_readable(#[trigger] inputs.snapshots@[i]),
    ensures
        closing_result(r, unattributed_withdrawals@, *inputs, *filters),
{
    let undated = undated_ids(&inputs.undated, filters);
    let tally = match tally_allocations(&inputs.contributions, filters) {
        Ok(t) => t,
        Err(e) => return Err(e),
    };
    let allocations = match pending_allocations(&tally) {
        Ok(a) => a,
        Err(e) => return Err(e),
    };
    let provider_events = pending_events(&inputs.provider_events, filters);
    let mut st = ClosingState {
        positions: SortedMap::new(),
        missing_snapshot_positions: Vec::new(),
        unreconciled_differences: Vec::new(),
        missing_valuations: Vec::new(),
        stale_valuations: Vec::new(),
    };
    assert(st.view() == empty_closing()) by {
        assert(st.view().positions =~= Map::empty());
        assert(texts(st.missing_snapshot_positions@) =~= seq![]);
        assert(texts(st.unreconciled_differences@) =~= seq![]);
        assert(texts(st.missing_valuations@) =~= seq![]);
        assert(texts(st.stale_valuations@) =~= seq![]);
    }
    snapshots_step(&mut st, &inputs.snapshots, &inputs.instrument_types, filters);
    derived_positions_step(&mut st, &inputs.derived, &inputs.instrument_types, filters);
    let ghost final_positions = st.positions;
    let pending = PendingSection {
        allocations,
        undated_acquisition_ids: undated,
        unattributed_withdrawals: crate::reports::totals(unattributed_withdrawals),
        provider_events,
        missing_snapshot_positions: st.missing_snapshot_positions,
        unreconciled_differences: st.unreconciled_differences,
        missing_valuations: st.missing_valuations,
        stale_valuations: st.stale_valuations,
    };
    let positions = position_values(st.positions);
    assert(tally.wf() && tally_view(tally) == spec_tally(inputs.contributions@, *filters)->0);
    assert(final_positions.wf());
    assert(unattributed_withdrawals.wf());
    Ok((pending, positions))
}

} // verus!
