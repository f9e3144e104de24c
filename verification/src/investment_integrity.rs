//! Integrity findings about the investment records: broken references and
//! violated invariants counted by the stored checks, exact decimals that
//! are not canonical, allocations beyond their contribution, inconsistent
//! funding attributions, and histories that cannot be replayed.
use vstd::prelude::*;
use crate::closing::negated;
use crate::exact::{canonical_exact_decimal, spec_canonical_exact};
use crate::brokerage::in_i64;
use crate::ordered::{kv, SortedMap};
use crate::replay::key_of;
use crate::review::owned;
use crate::text::str_eq;

verus! {

/// Whether a finding is a broken reference or a violated invariant.
#[derive(Debug, Clone, Copy, PartialEq, Eq, Structural)]
pub enum FindingKind {
    Broken,
    Invariant,
}

/// One integrity finding: what kind, its code, the entity it is about and
/// how many rows show it.
pub struct InvestmentFinding {
    pub kind: FindingKind,
    pub code: String,
    pub entity: String,
    pub count: i64,
}

/// Why the findings could not be counted.
#[derive(Debug, Clone, Copy, PartialEq, Eq, Structural)]
pub enum IntegrityError {
    QuantityFindingOverflow,
    FundingFindingOverflow,
}

pub type FindingView = (FindingKind, Seq<char>, Seq<char>, i64);

pub open spec fn finding_view(f: InvestmentFinding) -> FindingView {
    (f.kind, f.code@, f.entity@, f.count)
}

pub open spec fn findings_view(v: Seq<InvestmentFinding>) -> Seq<FindingView> {
    v.map_values(|f: InvestmentFinding| finding_view(f))
}

/// The stored checks, in the order they are run: kind, code and entity.
pub open spec fn investment_checks() -> Seq<(FindingKind, Seq<char>, Seq<char>)> {
    seq![
        (FindingKind::Broken, "allocation_reference_missing"@, "investment_allocation_revisions"@),
        (FindingKind::Invariant, "allocation_contribution_incompatible"@, "investment_allocation_revisions"@),
        (FindingKind::Broken, "allocation_head_missing_or_incorrect"@, "investment_allocation_heads"@),
        (FindingKind::Invariant, "allocation_fee_incompatible"@, "investment_allocation_revisions"@),
        (FindingKind::Broken, "allocation_consumption_orphaned"@, "investment_allocation_consumptions"@),
        (FindingKind::Broken, "cdt_position_reference_missing"@, "cdt_positions"@),
        (FindingKind::Invariant, "cdt_instrument_incompatible"@, "cdt_positions"@),
        (FindingKind::Broken, "cdt_operation_head_missing_or_incorrect"@, "cdt_operation_heads"@),
        (FindingKind::Broken, "brokerage_account_reference_missing"@, "brokerage_accounts"@),
        (FindingKind::Broken, "brokerage_operation_head_missing_or_incorrect"@, "brokerage_operation_heads"@),
        (FindingKind::Invariant, "brokerage_operation_incompatible"@, "brokerage_operation_heads"@),
        (FindingKind::Broken, "snapshot_reference_missing"@, "investment_snapshot_positions"@),
        (FindingKind::Broken, "snapshot_baseline_orphaned"@, "investment_snapshot_baselines"@),
        (FindingKind::Broken, "adjustment_reference_missing"@, "investment_adjustment_revisions"@),
        (FindingKind::Broken, "adjustment_head_missing_or_incorrect"@, "investment_adjustment_heads"@),
        (FindingKind::Broken, "investment_provenance_orphaned"@, "provenance"@),
        (FindingKind::Broken, "provider_event_target_missing"@, "investment_document_events"@),
        (FindingKind::Broken, "cdt_provider_enrichment_link_missing"@, "cdt_provider_enrichments"@),
        (FindingKind::Invariant, "allocation_consumption_exceeds_available"@, "investment_allocation_consumptions"@),
        (FindingKind::Invariant, "cdt_duplicate_active_lifecycle"@, "cdt_operation_heads"@),
        (FindingKind::Broken, "cdt_cash_or_funding_link_missing"@, "cdt_operation_revisions"@),
        (FindingKind::Broken, "brokerage_cash_or_funding_link_missing"@, "brokerage_operation_revisions"@),
        (FindingKind::Invariant, "snapshot_source_invalid"@, "investment_snapshots"@),
        (FindingKind::Invariant, "adjustment_snapshot_incompatible"@, "investment_adjustment_revisions"@),
        (FindingKind::Broken, "allocation_active_head_missing"@, "investment_allocation_revisions"@),
        (FindingKind::Broken, "cdt_operation_active_head_missing"@, "cdt_operation_revisions"@),
        (FindingKind::Broken, "brokerage_operation_active_head_missing"@, "brokerage_operation_revisions"@),
        (FindingKind::Broken, "snapshot_account_missing"@, "investment_snapshots"@),
    ]
}

/// The stored checks, in order.
pub fn check_list() -> (r: Vec<(FindingKind, &'static str, &'static str)>)
    ensures
        r@.len() == investment_checks().len(),
        forall|i: int| 0 <= i < r@.len() ==> ((#[trigger] r@[i]).0, r@[i].1@, r@[i].2@) == investment_checks()[i],
{
    let r = vec![
        (FindingKind::Broken, "allocation_reference_missing", "investment_allocation_revisions"),
        (FindingKind::Invariant, "allocation_contribution_incompatible", "investment_allocation_revisions"),
        (FindingKind::Broken, "allocation_head_missing_or_incorrect", "investment_allocation_heads"),
        (FindingKind::Invariant, "allocation_fee_incompatible", "investment_allocation_revisions"),
        (FindingKind::Broken, "allocation_consumption_orphaned", "investment_allocation_consumptions"),
        (FindingKind::Broken, "cdt_position_reference_missing", "cdt_positions"),
        (FindingKind::Invariant, "cdt_instrument_incompatible", "cdt_positions"),
        (FindingKind::Broken, "cdt_operation_head_missing_or_incorrect", "cdt_operation_heads"),
        (FindingKind::Broken, "brokerage_account_reference_missing", "brokerage_accounts"),
        (FindingKind::Broken, "brokerage_operation_head_missing_or_incorrect", "brokerage_operation_heads"),
        (FindingKind::Invariant, "brokerage_operation_incompatible", "brokerage_operation_heads"),
        (FindingKind::Broken, "snapshot_reference_missing", "investment_snapshot_positions"),
        (FindingKind::Broken, "snapshot_baseline_orphaned", "investment_snapshot_baselines"),
        (FindingKind::Broken, "adjustment_reference_missing", "investment_adjustment_revisions"),
        (FindingKind::Broken, "adjustment_head_missing_or_incorrect", "investment_adjustment_heads"),
        (FindingKind::Broken, "investment_provenance_orphaned", "provenance"),
        (FindingKind::Broken, "provider_event_target_missing", "investment_document_events"),
        (FindingKind::Broken, "cdt_provider_enrichment_link_missing", "cdt_provider_enrichments"),
        (FindingKind::Invariant, "allocation_consumption_exceeds_available", "investment_allocation_consumptions"),
        (FindingKind::Invariant, "cdt_duplicate_active_lifecycle", "cdt_operation_heads"),
        (FindingKind::Broken, "cdt_cash_or_funding_link_missing", "cdt_operation_revisions"),
        (FindingKind::Broken, "brokerage_cash_or_funding_link_missing", "brokerage_operation_revisions"),
        (FindingKind::Invariant, "snapshot_source_invalid", "investment_snapshots"),
        (FindingKind::Invariant, "adjustment_snapshot_incompatible", "investment_adjustment_revisions"),
        (FindingKind::Broken, "allocation_active_head_missing", "investment_allocation_revisions"),
        (FindingKind::Broken, "cdt_operation_active_head_missing", "cdt_operation_revisions"),
        (FindingKind::Broken, "brokerage_operation_active_head_missing", "brokerage_operation_revisions"),
        (FindingKind::Broken, "snapshot_account_missing", "investment_snapshots"),
    ];
    assert(r@.len() == 28);
    r
}

/// A finding for each of the first `n` checks whose count is positive.
pub open spec fn spec_check_findings(counts: Seq<i64>, n: nat) -> Seq<FindingView>
    decreases n,
{
    if n == 0 {
        seq![]
    } else {
        let prev = spec_check_findings(counts, (n - 1) as nat);
        let c = investment_checks()[n - 1];
        if counts[n - 1] > 0 { prev.push((c.0, c.1, c.2, counts[n - 1])) } else { prev }
    }
}

fn finding(kind: FindingKind, code: &str, entity: &str, count: i64) -> (r: InvestmentFinding)
    ensures
        finding_view(r) == (kind, code@, entity@, count),
{
    InvestmentFinding { kind, code: owned(code), entity: owned(entity), count }
}

/// The findings of the stored checks, given each check's count in order.
pub fn check_findings(counts: &Vec<i64>) -> (r: Vec<InvestmentFinding>)
    requires
        counts@.len() == investment_checks().len(),
    ensures
        findings_view(r@) == spec_check_findings(counts@, counts@.len()),
{
    let checks = check_list();
    let mut out: Vec<InvestmentFinding> = Vec::new();
    let mut i: usize = 0;
    while i < counts.len()
        invariant
            i <= counts@.len() == checks@.len() == investment_checks().len(),
            forall|j: int| 0 <= j < checks@.len() ==> ((#[trigger] checks@[j]).0, checks@[j].1@, checks@[j].2@) == investment_checks()[j],
            findings_view(out@) == spec_check_findings(counts@, i as nat),
        decreases counts.len() - i,
    {
        let (kind, code, entity) = checks[i];
        assert((kind, code@, entity@) == investment_checks()[i as int]);
        if counts[i] > 0 {
            out.push(finding(kind, code, entity, counts[i]));
        }
        assert(findings_view(out@) =~= spec_check_findings(counts@, (i + 1) as nat));
        i = i + 1;
    }
    out
}

// ---------------------------------------------------------------------
// Exact decimals.

/// A stored signed decimal and the canonical text the reconciliation rules
/// give it (none when they reject it).
pub struct SignedDecimalValue {
    pub value: String,
    pub canonical: Option<String>,
}

/// The stored exact decimals to check: quantities and prices (zero not
/// allowed), agreed rates (zero allowed), and signed differences.
pub struct ExactDecimalValues {
    pub quantities: Vec<String>,
    pub rates: Vec<String>,
    pub signed: Vec<SignedDecimalValue>,
}

pub open spec fn not_canonical(v: Seq<char>, allow_zero: bool) -> bool {
    spec_canonical_exact(v, allow_zero) != Some(v)
}

pub open spec fn count_not_canonical(vs: Seq<String>, allow_zero: bool) -> int
    decreases vs.len(),
{
    if vs.len() == 0 {
        0
    } else {
        count_not_canonical(vs.drop_last(), allow_zero) + if not_canonical(vs.last()@, allow_zero) { 1int } else { 0 }
    }
}

pub open spec fn signed_invalid(v: SignedDecimalValue) -> bool {
    match v.canonical {
        Some(c) => c@ != v.value@,
        None => true,
    }
}

pub open spec fn count_signed_invalid(vs: Seq<SignedDecimalValue>) -> int
    decreases vs.len(),
{
    if vs.len() == 0 {
        0
    } else {
        count_signed_invalid(vs.drop_last()) + if signed_invalid(vs.last()) { 1int } else { 0 }
    }
}

/// How many stored exact decimals are not canonical.
pub open spec fn spec_invalid_decimals(v: ExactDecimalValues) -> int {
    count_not_canonical(v.quantities@, false) + count_not_canonical(v.rates@, true) + count_signed_invalid(v.signed@)
}

proof fn lemma_counts_grow(vs: Seq<String>, allow_zero: bool, n: int)
    requires
        0 <= n <= vs.len(),
    ensures
        0 <= count_not_canonical(vs.subrange(0, n), allow_zero) <= count_not_canonical(vs, allow_zero),
    decreases vs.len() - n,
{
    if n < vs.len() {
        assert(vs.subrange(0, n + 1).drop_last() =~= vs.subrange(0, n));
        lemma_counts_grow(vs, allow_zero, n + 1);
    } else {
        assert(vs.subrange(0, n) =~= vs);
    }
    lemma_count_nonneg(vs.subrange(0, n), allow_zero);
}

proof fn lemma_count_nonneg(vs: Seq<String>, allow_zero: bool)
    ensures
        count_not_canonical(vs, allow_zero) >= 0,
    decreases vs.len(),
{
    if vs.len() > 0 {
        lemma_count_nonneg(vs.drop_last(), allow_zero);
    }
}

proof fn lemma_signed_grow(vs: Seq<SignedDecimalValue>, n: int)
    requires
        0 <= n <= vs.len(),
    ensures
        0 <= count_signed_invalid(vs.subrange(0, n)) <= count_signed_invalid(vs),
    decreases vs.len() - n,
{
    if n < vs.len() {
        assert(vs.subrange(0, n + 1).drop_last() =~= vs.subrange(0, n));
        lemma_signed_grow(vs, n + 1);
    } else {
        assert(vs.subrange(0, n) =~= vs);
    }
    lemma_signed_nonneg(vs.subrange(0, n));
}

proof fn lemma_signed_nonneg(vs: Seq<SignedDecimalValue>)
    ensures
        count_signed_invalid(vs) >= 0,
    decreases vs.len(),
{
    if vs.len() > 0 {
        lemma_signed_nonneg(vs.drop_last());
    }
}

fn count_invalid_plain(vs: &Vec<String>, allow_zero: bool, start: i64) -> (r: Option<i64>)
    requires
        start >= 0,
    ensures
        match r {
            Some(n) => n == start + count_not_canonical(vs@, allow_zero),
            None => !in_i64(start + count_not_canonical(vs@, allow_zero)),
        },
{
    let mut n = start;
    let mut i: usize = 0;
    while i < vs.len()
        invariant
            i <= vs@.len(),
            start >= 0,
            n == start + count_not_canonical(vs@.subrange(0, i as int), allow_zero),
        decreases vs.len() - i,
    {
        assert(vs@.subrange(0, i + 1).drop_last() =~= vs@.subrange(0, i as int));
        let v = vs[i].as_str();
        let ok = match canonical_exact_decimal(v, allow_zero) {
            Some(c) => str_eq(c.as_str(), v),
            None => false,
        };
        if !ok {
            match n.checked_add(1) {
                Some(m) => n = m,
                None => {
                    proof { lemma_counts_grow(vs@, allow_zero, i + 1); }
                    return None;
                },
            }
        }
        i = i + 1;
    }
    assert(vs@.subrange(0, vs@.len() as int) =~= vs@);
    Some(n)
}

fn count_invalid_signed(vs: &Vec<SignedDecimalValue>, start: i64) -> (r: Option<i64>)
    requires
        start >= 0,
    ensures
        match r {
            Some(n) => n == start + count_signed_invalid(vs@),
            None => !in_i64(start + count_signed_invalid(vs@)),
        },
{
    let mut n = start;
    let mut i: usize = 0;
    while i < vs.len()
        invariant
            i <= vs@.len(),
            start >= 0,
            n == start + count_signed_invalid(vs@.subrange(0, i as int)),
        decreases vs.len() - i,
    {
        assert(vs@.subrange(0, i + 1).drop_last() =~= vs@.subrange(0, i as int));
        let v = &vs[i];
        let ok = match &v.canonical {
            Some(c) => str_eq(c.as_str(), v.value.as_str()),
            None => false,
        };
        if !ok {
            match n.checked_add(1) {
                Some(m) => n = m,
                None => {
                    proof { lemma_signed_grow(vs@, i + 1); }
                    return None;
                },
            }
        }
        i = i + 1;
    }
    assert(vs@.subrange(0, vs@.len() as int) =~= vs@);
    Some(n)
}

/// The finding about non-canonical exact decimals, if any are.
pub fn exact_quantity_findings(values: &ExactDecimalValues) -> (r: Result<Option<InvestmentFinding>, IntegrityError>)
    ensures
        !in_i64(spec_invalid_decimals(*values)) ==> r == Err::<Option<InvestmentFinding>, IntegrityError>(
            IntegrityError::QuantityFindingOverflow),
        in_i64(spec_invalid_decimals(*values)) ==> (r matches Ok(f) && (spec_invalid_decimals(*values) > 0 <==> f is Some)
            && (f matches Some(x) ==> finding_view(x) == (FindingKind::Invariant, "investment_exact_decimal_invalid"@,
                "investment_quantities"@, spec_invalid_decimals(*values) as i64))),
{
    proof {
        lemma_count_nonneg(values.quantities@, false);
        lemma_count_nonneg(values.rates@, true);
        lemma_signed_nonneg(values.signed@);
    }
    let a = match count_invalid_plain(&values.quantities, false, 0) {
        Some(n) => n,
        None => return Err(IntegrityError::QuantityFindingOverflow),
    };
    let b = match count_invalid_plain(&values.rates, true, a) {
        Some(n) => n,
        None => return Err(IntegrityError::QuantityFindingOverflow),
    };
    let c = match count_invalid_signed(&values.signed, b) {
        Some(n) => n,
        None => return Err(IntegrityError::QuantityFindingOverflow),
    };
    if c > 0 {
        Ok(Some(finding(FindingKind::Invariant, "investment_exact_decimal_invalid", "investment_quantities", c)))
    } else {
        Ok(None)
    }
}

// ---------------------------------------------------------------------
// Checked totals.

/// The cash of one current allocation of a contribution.
pub struct ContributionPart {
    pub contribution_id: String,
    pub signed_amount_minor: i64,
    pub allocated_minor: i64,
}

/// A buy's funding attribution and the revision it belongs to (if any).
pub struct FundingAttribution {
    pub external_capital_minor: i64,
    pub existing_cash_minor: i64,
    pub reinvested_minor: i64,
    pub investment_income_minor: i64,
    pub unattributed_minor: i64,
    pub historical_cost_minor: Option<i64>,
    pub operation_type: Option<String>,
}

pub type Totals = Map<Seq<Option<Seq<char>>>, (i64, i64)>;

pub open spec fn part_key(p: ContributionPart) -> Seq<Option<Seq<char>>> {
    seq![Some(p.contribution_id@)]
}

/// Each contribution's available amount (its negated signed amount, from
/// its first part) and allocated total, with a finding for each amount that
/// cannot be negated and each total that leaves `i64`.
pub open spec fn spec_part_totals(parts: Seq<ContributionPart>) -> (Totals, Seq<FindingView>)
    decreases parts.len(),
{
    if parts.len() == 0 {
        (Map::empty(), seq![])
    } else {
        let (m, f) = spec_part_totals(parts.drop_last());
        let p = parts.last();
        if !in_i64(-p.signed_amount_minor) {
            (m, f.push((FindingKind::Invariant, "contribution_amount_overflow"@, "canonical_transactions"@, 1i64)))
        } else {
            let k = part_key(p);
            let e: (i64, i64) = if m.contains_key(k) { m[k] } else { ((-p.signed_amount_minor) as i64, 0i64) };
            if in_i64(e.1 + p.allocated_minor) {
                (m.insert(k, (e.0, (e.1 + p.allocated_minor) as i64)), f)
            } else {
                (m.insert(k, e), f.push((FindingKind::Invariant, "allocation_total_overflow"@, "investment_allocation_heads"@, 1i64)))
            }
        }
    }
}

/// How many of the entries allocate more than is available.
pub open spec fn count_over(es: Seq<crate::ordered::KeyedEntry<(i64, i64)>>) -> int
    decreases es.len(),
{
    if es.len() == 0 {
        0
    } else {
        count_over(es.drop_last()) + if es.last().value.1 > es.last().value.0 { 1int } else { 0 }
    }
}

/// The sum of a funding attribution's parts, added in order; `None` when
/// a partial sum leaves `i64`.
pub open spec fn attribution_sum(a: FundingAttribution) -> Option<i64> {
    let s1 = a.external_capital_minor + a.existing_cash_minor;
    let s2 = s1 + a.reinvested_minor;
    let s3 = s2 + a.investment_income_minor;
    let s4 = s3 + a.unattributed_minor;
    if !in_i64(s1) || !in_i64(s2) || !in_i64(s3) || !in_i64(s4) { None } else { Some(s4 as i64) }
}

/// An attribution is inconsistent when its sum is not the buy's historical
/// cost or it does not belong to a buy.
pub open spec fn inconsistent(a: FundingAttribution) -> bool {
    attribution_sum(a) != a.historical_cost_minor || opt_seq_of(a.operation_type) != Some("buy"@)
}

pub open spec fn opt_seq_of(o: Option<String>) -> Option<Seq<char>> {
    crate::cdt::opt_seq(o)
}

pub open spec fn count_inconsistent(v: Seq<FundingAttribution>) -> int
    decreases v.len(),
{
    if v.len() == 0 {
        0
    } else {
        count_inconsistent(v.drop_last()) + if inconsistent(v.last()) { 1int } else { 0 }
    }
}

proof fn lemma_inconsistent_grow(vs: Seq<FundingAttribution>, n: int)
    requires
        0 <= n <= vs.len(),
    ensures
        0 <= count_inconsistent(vs.subrange(0, n)) <= count_inconsistent(vs),
    decreases vs.len() - n,
{
    if n < vs.len() {
        assert(vs.subrange(0, n + 1).drop_last() =~= vs.subrange(0, n));
        lemma_inconsistent_grow(vs, n + 1);
    } else {
        assert(vs.subrange(0, n) =~= vs);
    }
    lemma_inconsistent_nonneg(vs.subrange(0, n));
}

proof fn lemma_inconsistent_nonneg(vs: Seq<FundingAttribution>)
    ensures
        count_inconsistent(vs) >= 0,
    decreases vs.len(),
{
    if vs.len() > 0 {
        lemma_inconsistent_nonneg(vs.drop_last());
    }
}

pub open spec fn totals_view(t: SortedMap<(i64, i64)>) -> Totals {
    t@
}

fn part_totals(parts: &Vec<ContributionPart>) -> (r: (SortedMap<(i64, i64)>, Vec<InvestmentFinding>))
    ensures
        r.0.wf(),
        r.0@ == spec_part_totals(parts@).0,
        findings_view(r.1@) == spec_part_totals(parts@).1,
{
    let mut m: SortedMap<(i64, i64)> = SortedMap::new();
    let mut out: Vec<InvestmentFinding> = Vec::new();
    let mut i: usize = 0;
    while i < parts.len()
        invariant
            i <= parts@.len(),
            m.wf(),
            m@ == spec_part_totals(parts@.subrange(0, i as int)).0,
            findings_view(out@) == spec_part_totals(parts@.subrange(0, i as int)).1,
        decreases parts.len() - i,
    {
        let ghost pre = parts@.subrange(0, i + 1);
        assert(pre.drop_last() =~= parts@.subrange(0, i as int));
        let p = &parts[i];
        match negated(p.signed_amount_minor) {
            None => {
                out.push(finding(FindingKind::Invariant, "contribution_amount_overflow", "canonical_transactions", 1));
                assert(findings_view(out@) =~= spec_part_totals(pre).1);
            },
            Some(available) => {
                let k = key_of(vec![Some(p.contribution_id.as_str())]);
                assert(kv(k) =~= part_key(*p));
                let at = m.find(&k);
                let e: (i64, i64) = match at {
                    Some(j) => {
                        proof { m.lemma_view_at(j as int); }
                        m.entries[j].value
                    },
                    None => (available, 0),
                };
                let total = e.1.checked_add(p.allocated_minor);
                let stored: (i64, i64) = match total {
                    Some(t) => (e.0, t),
                    None => e,
                };
                match at {
                    Some(j) => m.set_value(j, stored),
                    None => m.insert_new(k, stored),
                }
                if total.is_none() {
                    out.push(finding(FindingKind::Invariant, "allocation_total_overflow", "investment_allocation_heads", 1));
                }
                assert(findings_view(out@) =~= spec_part_totals(pre).1);
            },
        }
        i = i + 1;
    }
    assert(parts@.subrange(0, parts@.len() as int) =~= parts@);
    (m, out)
}

fn over_count(m: &SortedMap<(i64, i64)>) -> (r: i64)
    ensures
        r == count_over(m.entries@) as i64,
{
    let mut n: usize = 0;
    let mut i: usize = 0;
    while i < m.entries.len()
        invariant
            i <= m.entries@.len(),
            n <= i,
            n == count_over(m.entries@.subrange(0, i as int)),
        decreases m.entries.len() - i,
    {
        assert(m.entries@.subrange(0, i + 1).drop_last() =~= m.entries@.subrange(0, i as int));
        let v = m.entries[i].value;
        if v.1 > v.0 {
            n = n + 1;
        }
        i = i + 1;
    }
    assert(m.entries@.subrange(0, m.entries@.len() as int) =~= m.entries@);
    #[verifier::truncate]
    let r = n as i64;
    r
}

fn attribution_total(a: &FundingAttribution) -> (r: Option<i64>)
    ensures
        r == attribution_sum(*a),
{
    match a.external_capital_minor.checked_add(a.existing_cash_minor) {
        None => None,
        Some(s1) => match s1.checked_add(a.reinvested_minor) {
            None => None,
            Some(s2) => match s2.checked_add(a.investment_income_minor) {
                None => None,
                Some(s3) => s3.checked_add(a.unattributed_minor),
            },
        },
    }
}

fn inconsistent_count(v: &Vec<FundingAttribution>) -> (r: Option<i64>)
    ensures
        match r {
            Some(n) => n == count_inconsistent(v@),
            None => !in_i64(count_inconsistent(v@)),
        },
{
    let mut n: i64 = 0;
    let mut i: usize = 0;
    while i < v.len()
        invariant
            i <= v@.len(),
            n == count_inconsistent(v@.subrange(0, i as int)),
        decreases v.len() - i,
    {
        assert(v@.subrange(0, i + 1).drop_last() =~= v@.subrange(0, i as int));
        let a = &v[i];
        let sum = attribution_total(a);
        let is_buy = match &a.operation_type {
            Some(t) => str_eq(t.as_str(), "buy"),
            None => false,
        };
        let same = match (sum, a.historical_cost_minor) {
            (Some(x), Some(y)) => x == y,
            (None, None) => true,
            _ => false,
        };
        if !same || !is_buy {
            match n.checked_add(1) {
                Some(m) => n = m,
                None => {
                    proof { lemma_inconsistent_grow(v@, i + 1); }
                    return None;
                },
            }
        }
        i = i + 1;
    }
    assert(v@.subrange(0, v@.len() as int) =~= v@);
    Some(n)
}

/// The findings about checked totals, in order: amounts that cannot be
/// negated and allocated totals that overflow (row by row), contributions
/// allocated beyond what they have, and inconsistent funding attributions.
pub open spec fn checked_totals_findings(parts: Seq<ContributionPart>, attributions: Seq<FundingAttribution>, over: int) -> Seq<FindingView> {
    spec_part_totals(parts).1
        + (if over > 0 { seq![(FindingKind::Invariant, "active_allocation_exceeds_contribution"@,
            "investment_allocation_heads"@, over as i64)] } else { seq![] })
        + (if count_inconsistent(attributions) > 0 { seq![(FindingKind::Invariant,
            "brokerage_funding_attribution_inconsistent"@, "brokerage_buy_funding_attributions"@,
            count_inconsistent(attributions) as i64)] } else { seq![] })
}

/// Checks the contributions' allocated totals and the buys' funding
/// attributions (see `checked_totals_findings`, where `over` counts the
/// contributions allocated beyond what they have).
pub fn validate_checked_totals(parts: &Vec<ContributionPart>, attributions: &Vec<FundingAttribution>) -> (r: Result<Vec<InvestmentFinding>, IntegrityError>)
    ensures
        !in_i64(count_inconsistent(attributions@)) ==> r == Err::<Vec<InvestmentFinding>, IntegrityError>(
            IntegrityError::FundingFindingOverflow),
        in_i64(count_inconsistent(attributions@)) ==> (r matches Ok(v) && exists|m: SortedMap<(i64, i64)>| #![trigger m.wf()] m.wf()
            && m@ == spec_part_totals(parts@).0
            && findings_view(v@) == checked_totals_findings(parts@, attributions@, (count_over(m.entries@) as i64) as int)),
{
    let (m, mut out) = part_totals(parts);
    let over = over_count(&m);
    if over > 0 {
        out.push(finding(FindingKind::Invariant, "active_allocation_exceeds_contribution", "investment_allocation_heads", over));
    }
    let bad = match inconsistent_count(attributions) {
        Some(n) => n,
        None => return Err(IntegrityError::FundingFindingOverflow),
    };
    proof { lemma_inconsistent_nonneg(attributions@); }
    if bad > 0 {
        out.push(finding(FindingKind::Invariant, "brokerage_funding_attribution_inconsistent",
            "brokerage_buy_funding_attributions", bad));
    }
    assert(findings_view(out@) =~= checked_totals_findings(parts@, attributions@, over as int));
    Ok(out)
}

// ---------------------------------------------------------------------
// All findings.

/// What the investment integrity findings are computed from: each stored
/// check's count, the exact decimals, the checked-total rows, and whether
/// the brokerage, CDT and reconciliation histories replay.
pub struct IntegrityInputs {
    pub check_counts: Vec<i64>,
    pub decimals: ExactDecimalValues,
    pub contribution_parts: Vec<ContributionPart>,
    pub attributions: Vec<FundingAttribution>,
    pub brokerage_replays: bool,
    pub cdt_replays: bool,
    pub reconciliation_valid: bool,
}

/// The replay findings, in order.
pub open spec fn replay_findings(i: IntegrityInputs) -> Seq<FindingView> {
    (if !i.brokerage_replays { seq![(FindingKind::Invariant, "brokerage_replay_impossible"@, "brokerage_operation_heads"@, 1i64)] } else { seq![] })
        + (if !i.cdt_replays { seq![(FindingKind::Invariant, "cdt_replay_impossible"@, "cdt_operation_heads"@, 1i64)] } else { seq![] })
        + (if !i.reconciliation_valid { seq![(FindingKind::Invariant, "reconciliation_state_impossible"@,
            "investment_adjustment_heads"@, 1i64)] } else { seq![] })
}

/// Every investment integrity finding, in order: the stored checks, the
/// exact decimals, the checked totals and the replays.
pub fn findings(inputs: &IntegrityInputs) -> (r: Result<Vec<InvestmentFinding>, IntegrityError>)
    requires
        inputs.check_counts@.len() == investment_checks().len(),
    ensures
        !in_i64(spec_invalid_decimals(inputs.decimals)) ==> r == Err::<Vec<InvestmentFinding>, IntegrityError>(
            IntegrityError::QuantityFindingOverflow),
        in_i64(spec_invalid_decimals(inputs.decimals)) && !in_i64(count_inconsistent(inputs.attributions@)) ==> r
            == Err::<Vec<InvestmentFinding>, IntegrityError>(IntegrityError::FundingFindingOverflow),
        in_i64(spec_invalid_decimals(inputs.decimals)) && in_i64(count_inconsistent(inputs.attributions@)) ==> (r matches Ok(v)
            && exists|m: SortedMap<(i64, i64)>| #![trigger m.wf()] m.wf() && m@ == spec_part_totals(inputs.contribution_parts@).0
            && findings_view(v@) == spec_check_findings(inputs.check_counts@, inputs.check_counts@.len())
                + (if spec_invalid_decimals(inputs.decimals) > 0 { seq![(FindingKind::Invariant,
                    "investment_exact_decimal_invalid"@, "investment_quantities"@, spec_invalid_decimals(inputs.decimals) as i64)] }
                    else { seq![] })
                + checked_totals_findings(inputs.contribution_parts@, inputs.attributions@, (count_over(m.entries@) as i64) as int)
                + replay_findings(*inputs)),
{
    let mut out = check_findings(&inputs.check_counts);
    let ghost a = findings_view(out@);
    match exact_quantity_findings(&inputs.decimals) {
        Err(e) => return Err(e),
        Ok(Some(f)) => out.push(f),
        Ok(None) => {},
    }
    let ghost b = findings_view(out@);
    let totals = match validate_checked_totals(&inputs.contribution_parts, &inputs.attributions) {
        Err(e) => return Err(e),
        Ok(v) => v,
    };
    let ghost tv = findings_view(totals@);
    let mut k: usize = 0;
    while k < totals.len()
        invariant
            k <= totals@.len(),
            tv == findings_view(totals@),
            findings_view(out@) == b + tv.subrange(0, k as int),
        decreases totals.len() - k,
    {
        let f = &totals[k];
        let g = InvestmentFinding { kind: f.kind, code: f.code.clone(), entity: f.entity.clone(), count: f.count };
        assert(finding_view(g) == tv[k as int]);
        let ghost before = out@;
        out.push(g);
        assert(out@ == before.push(g));
        assert(findings_view(out@) =~= findings_view(before).push(finding_view(g)));
        assert(tv.subrange(0, k + 1) =~= tv.subrange(0, k as int).push(tv[k as int]));
        assert(findings_view(out@) =~= b + tv.subrange(0, k + 1));
        k = k + 1;
    }
    assert(tv.subrange(0, totals@.len() as int) =~= tv);
    let ghost c = findings_view(out@);
    if !inputs.brokerage_replays {
        out.push(finding(FindingKind::Invariant, "brokerage_replay_impossible", "brokerage_operation_heads", 1));
    }
    if !inputs.cdt_replays {
        out.push(finding(FindingKind::Invariant, "cdt_replay_impossible", "cdt_operation_heads", 1));
    }
    if !inputs.reconciliation_valid {
        out.push(finding(FindingKind::Invariant, "reconciliation_state_impossible", "investment_adjustment_heads", 1));
    }
    assert(findings_view(out@) =~= c + replay_findings(*inputs));
    Ok(out)
}

} // verus!
