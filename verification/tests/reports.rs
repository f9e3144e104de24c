use tracky::closing::{
    closing_state, ClosingInputs, ContributionAllocationRow, DerivedClosingPosition, InstrumentTypeRow,
    PendingProviderEvent, PositionReconciliation, SnapshotComparison, SnapshotPositionKey, UndatedAllocation,
};
use tracky::investment_report::{
    net_external, report, report_error, report_filtered, report_filtered_checked, validate_brokerage_attribution, ContributionRow,
    EnrichmentRow, CdtProviderEnrichmentReport, ReportInputs,
};
use tracky::ordered::SortedMap;
use tracky::replay::{BrokerageReplayRow, CdtReplayRow};
use tracky::reports::{add_total, key1, totals, ReportError, ReportFilters};

fn empty_closing() -> ClosingInputs {
    ClosingInputs {
        undated: vec![],
        contributions: vec![],
        provider_events: vec![],
        instrument_types: vec![],
        snapshots: vec![],
        derived: vec![],
    }
}

fn inputs() -> ReportInputs {
    ReportInputs {
        contributions: vec![],
        direct: vec![],
        brokerage: vec![],
        cdt: vec![],
        closing: empty_closing(),
        enrichments: vec![],
    }
}

fn contribution(account: &str, currency: &str, signed: i64) -> ContributionRow {
    ContributionRow { account_id: account.into(), currency: currency.into(), signed_amount_minor: signed }
}

fn cash_row(account: &str, kind: &str, date: &str, g: i64, n: i64) -> BrokerageReplayRow {
    BrokerageReplayRow {
        account: account.into(),
        kind: kind.into(),
        cur: "COP".into(),
        g,
        rr: 0,
        f: 0,
        w: 0,
        d: 0,
        n,
        funding: if kind == "deposit" { Some("alloc".into()) } else { None },
        instrument: None,
        instrument_type: None,
        date: date.into(),
        quantity: None,
        origin_external: 0,
        origin_existing: 0,
        origin_reinvested: 0,
        origin_income: 0,
        origin_unattributed: 0,
    }
}

#[test]
fn invalid_ranges_are_answered_with_a_failed_report() {
    let r = report_filtered("2026-13-01", "2026-06-30", None, &vec![], &inputs()).unwrap();
    assert!(!r.ok);
    assert_eq!(r.errors[0].code, "invalid_from_date");
    assert_eq!(r.errors[0].message, "invalid from date");
    assert_eq!(r.errors[0].path, "from");
    assert!(r.errors[0].details.is_empty());
    let r = report_filtered("2026-06-01", "nope", None, &vec![], &inputs()).unwrap();
    assert_eq!(r.errors[0].code, "invalid_to_date");
    let r = report_filtered("2026-06-30", "2026-06-01", None, &vec![], &inputs()).unwrap();
    assert_eq!(r.errors[0].code, "invalid_date_range");
    assert_eq!(r.errors[0].path, "date_range");
    assert_eq!(r.date_range.start_date, "2026-06-30");
}

#[test]
fn report_error_has_empty_sections() {
    let r = report_error("a", "b", "some_code", "p");
    assert_eq!(r.schema_version, "tracky.investment-report.v1");
    assert_eq!(r.command, "reports investments");
    assert!(r.capital_external.external_capital_contributed.is_empty());
    assert!(r.closing_positions.is_empty());
    assert_eq!(r.errors[0].message, "some code");
}

fn allocation_row(id: &str, account: &str, currency: &str, signed: i64) -> ContributionAllocationRow {
    ContributionAllocationRow {
        posted_date: "2026-06-01".into(),
        contribution_id: id.into(),
        account_id: account.into(),
        currency: currency.into(),
        signed_amount_minor: signed,
        allocated_minor: None,
    }
}

fn filtered_report_fixture() -> ReportInputs {
    let mut i = inputs();
    i.contributions = vec![
        contribution("bank", "COP", -100),
        contribution("bank", "USD", -200),
        contribution("excluded", "COP", i64::MIN),
    ];
    i.brokerage = vec![cash_row("broker", "dividend", "2026-06-10", 30, 30)];
    i.closing.contributions = vec![
        allocation_row("bank-contribution", "bank", "COP", -100),
        allocation_row("bank-usd", "bank", "USD", -200),
        allocation_row("excluded-overflow", "excluded", "COP", i64::MIN),
    ];
    i
}

#[test]
fn filters_source_contributions_and_investment_operations_before_aggregation() {
    let i = filtered_report_fixture();

    let bank = report_filtered("2026-06-01", "2026-06-30", Some("cop"), &vec!["bank".to_string()], &i).unwrap();
    assert_eq!(bank.capital_external.external_capital_contributed.len(), 1);
    assert_eq!(bank.capital_external.external_capital_contributed[0].currency, "COP");
    assert_eq!(bank.capital_external.external_capital_contributed[0].amount_minor, 100);
    assert!(bank.returns_and_income.gross_dividends.is_empty());
    assert_eq!(bank.pending_and_reconciliation.allocations.len(), 1);
    assert_eq!(bank.pending_and_reconciliation.allocations[0].contribution_id, "bank-contribution");

    let broker = report_filtered("2026-06-01", "2026-06-30", Some("COP"), &vec!["broker".to_string()], &i).unwrap();
    assert!(broker.capital_external.external_capital_contributed.is_empty());
    assert_eq!(broker.returns_and_income.gross_dividends.len(), 1);
    assert_eq!(broker.returns_and_income.gross_dividends[0].currency, "COP");
    assert_eq!(broker.returns_and_income.gross_dividends[0].amount_minor, 30);
    assert_eq!(broker.returns_and_income.by_instrument[0].account_id, "broker");
    assert!(broker.pending_and_reconciliation.allocations.is_empty());
}

#[test]
fn brokerage_deposits_and_withdrawals_feed_capital_and_net_cash() {
    let mut i = inputs();
    i.brokerage = vec![
        cash_row("broker", "deposit", "2026-06-02", 1_000, 1_000),
        cash_row("broker", "withdrawal", "2026-06-10", 300, -300),
    ];
    let r = report("2026-06-01", "2026-06-30", &i).unwrap();
    assert_eq!(r.capital_external.capital_withdrawn[0].amount_minor, 300);
    assert_eq!(r.capital_external.net_external_contribution[0].amount_minor, -300);
    assert_eq!(r.returns_and_income.net_cash[0].amount_minor, 700);
    let detail = &r.returns_and_income.by_instrument[0];
    assert_eq!(detail.account_id, "broker");
    assert_eq!(detail.instrument_id, None);
    assert_eq!(detail.net_cash_minor, 700);
    assert!(r.pending_and_reconciliation.unattributed_withdrawals.is_empty());
}

#[test]
fn operations_before_the_range_only_move_the_pools() {
    let mut i = inputs();
    i.brokerage = vec![
        cash_row("broker", "deposit", "2026-05-02", 1_000, 1_000),
        cash_row("broker", "withdrawal", "2026-06-10", 300, -300),
    ];
    let r = report("2026-06-01", "2026-06-30", &i).unwrap();
    assert_eq!(r.capital_external.capital_withdrawn[0].amount_minor, 300);
    assert_eq!(r.returns_and_income.net_cash[0].amount_minor, -300);
}

#[test]
fn uncovered_withdrawals_are_unattributed() {
    let mut i = inputs();
    i.brokerage = vec![cash_row("broker", "withdrawal", "2026-06-10", 300, -300)];
    let r = report("2026-06-01", "2026-06-30", &i).unwrap();
    assert!(r.capital_external.capital_withdrawn.is_empty());
    assert_eq!(r.pending_and_reconciliation.unattributed_withdrawals[0].amount_minor, 300);
}

#[test]
fn cdt_renewals_reinvest_matured_principal() {
    let mut i = inputs();
    i.cdt = vec![CdtReplayRow {
        kind: "renewal".into(),
        cur: "COP".into(),
        p: 0,
        e: 100,
        ci: 50,
        gi: 50,
        w: 5,
        d: 0,
        n: 0,
        before: 1_000,
        after: 1_150,
        account: "bank".into(),
        instrument: "cdt".into(),
    }];
    let r = report("2026-06-01", "2026-06-30", &i).unwrap();
    let a = &r.acquisitions_and_reinvestment;
    assert_eq!(a.gross_acquisitions[0].amount_minor, 1_150);
    assert_eq!(a.funded_by_maturities[0].amount_minor, 1_000);
    assert_eq!(a.reinvestment[0].amount_minor, 1_050);
    assert_eq!(a.funded_by_external_contribution[0].amount_minor, 100);
    assert_eq!(a.by_instrument[0].instrument_type, "fixed_income");
    assert_eq!(r.returns_and_income.gross_interest[0].amount_minor, 50);
    assert_eq!(r.costs_and_withholding.withholding[0].amount_minor, 5);
    assert_eq!(r.costs_and_withholding.by_instrument[0].withholding_minor, 5);
}

#[test]
fn overflowing_contributions_stop_the_report() {
    let mut i = inputs();
    i.contributions = vec![contribution("bank", "COP", i64::MIN)];
    assert_eq!(report("2026-06-01", "2026-06-30", &i).err(), Some(ReportError::AmountOverflow));
}

#[test]
fn enrichments_are_filtered_by_account_and_currency() {
    let mut i = inputs();
    let e = |id: &str| CdtProviderEnrichmentReport {
        event_id: id.into(),
        operation_revision_id: "rev".into(),
        effective_date: "2026-06-05".into(),
        provider_evidence: "{}".into(),
        reviewer_terms: "{}".into(),
    };
    i.enrichments = vec![
        EnrichmentRow { account_id: "bank".into(), currency: "COP".into(), report: e("kept") },
        EnrichmentRow { account_id: "other".into(), currency: "COP".into(), report: e("dropped") },
    ];
    let r = report_filtered("2026-06-01", "2026-06-30", None, &vec!["bank".to_string()], &i).unwrap();
    assert_eq!(r.cdt_provider_enrichments.len(), 1);
    assert_eq!(r.cdt_provider_enrichments[0].event_id, "kept");
}

fn totals_of(pairs: &[(&str, i64)]) -> SortedMap<i64> {
    let mut m = SortedMap::new();
    for (c, v) in pairs {
        add_total(&mut m, key1(c), *v).unwrap();
    }
    m
}

#[test]
fn net_external_covers_every_currency_in_order() {
    let c = totals_of(&[("USD", 5), ("COP", 100)]);
    let w = totals_of(&[("EUR", 7), ("COP", 30)]);
    let n = totals(&net_external(&c, &w).unwrap());
    let got: Vec<(String, i64)> = n.into_iter().map(|t| (t.currency, t.amount_minor)).collect();
    assert_eq!(got, vec![("COP".to_string(), 70), ("EUR".to_string(), -7), ("USD".to_string(), 5)]);
    let c = totals_of(&[("COP", i64::MIN + 1)]);
    let w = totals_of(&[("COP", 2)]);
    assert_eq!(net_external(&c, &w).err(), Some(ReportError::AmountOverflow));
}

fn reconciliation(status: &str) -> PositionReconciliation {
    PositionReconciliation {
        account_id: "bank".into(),
        instrument_id: Some("fund".into()),
        currency: "COP".into(),
        status: status.into(),
        original_status: status.into(),
        freshness: "stale".into(),
        derived_quantity: None,
        observed_quantity: Some("3".into()),
        derived_historical_cost_minor: Some(90),
        cost_currency: Some("COP".into()),
        observed_value_minor: Some(120),
        valuation_currency: Some("COP".into()),
        original_quantity_difference: None,
        quantity_difference: None,
        original_value_difference_minor: None,
        value_difference_minor: None,
    }
}

#[test]
fn closing_state_collects_pending_work_and_positions() {
    let inputs = ClosingInputs {
        undated: vec![
            UndatedAllocation { allocation_id: "a1".into(), account_id: "bank".into(), currency: "COP".into() },
            UndatedAllocation { allocation_id: "a2".into(), account_id: "other".into(), currency: "USD".into() },
        ],
        contributions: vec![
            ContributionAllocationRow { posted_date: "2026-06-01".into(), contribution_id: "c1".into(), account_id: "bank".into(),
                currency: "COP".into(), signed_amount_minor: -100, allocated_minor: Some(30) },
            ContributionAllocationRow { posted_date: "2026-06-01".into(), contribution_id: "c1".into(), account_id: "bank".into(),
                currency: "COP".into(), signed_amount_minor: -100, allocated_minor: Some(20) },
            ContributionAllocationRow { posted_date: "2026-06-02".into(), contribution_id: "c2".into(), account_id: "bank".into(),
                currency: "COP".into(), signed_amount_minor: -40, allocated_minor: None },
            ContributionAllocationRow { posted_date: "2026-06-03".into(), contribution_id: "c3".into(), account_id: "bank".into(),
                currency: "COP".into(), signed_amount_minor: -10, allocated_minor: Some(10) },
        ],
        provider_events: vec![PendingProviderEvent {
            event_id: "e1".into(),
            provider: "nu".into(),
            effective_date: "2026-06-05".into(),
            currency: "cop".into(),
            event_type: "deposit".into(),
        }],
        instrument_types: vec![InstrumentTypeRow { id: "fund".into(), instrument_type: "fund".into() }],
        snapshots: vec![SnapshotComparison {
            positions: vec![SnapshotPositionKey { account_id: "bank".into(), instrument_id: Some("fund".into()), currency: "COP".into() }],
            provider_effective_date: None,
            observed_at: "2026-06-30T10:00:00Z".into(),
            reconciliations: vec![reconciliation("stale")],
        }],
        derived: vec![
            DerivedClosingPosition { account_id: "bank".into(), instrument_id: None, currency: "COP".into(),
                quantity: Some("5".into()), historical_cost_minor: Some(5), cost_currency: Some("COP".into()) },
            DerivedClosingPosition { account_id: "bank".into(), instrument_id: Some("fund".into()), currency: "COP".into(),
                quantity: Some("9".into()), historical_cost_minor: Some(9), cost_currency: Some("COP".into()) },
        ],
    };
    let filters = ReportFilters::new(Some("COP"), &vec![]);
    let unattributed = totals_of(&[("COP", 12)]);
    let (pending, positions) = closing_state(&unattributed, &filters, &inputs).unwrap();
    assert_eq!(pending.undated_acquisition_ids, vec!["a1".to_string()]);
    assert_eq!(pending.allocations.len(), 2);
    assert_eq!(pending.allocations[0].contribution_id, "c1");
    assert_eq!(pending.allocations[0].contributed_minor, 100);
    assert_eq!(pending.allocations[0].allocated_minor, 50);
    assert_eq!(pending.allocations[0].unallocated_minor, 50);
    assert_eq!(pending.allocations[0].status, "partial");
    assert_eq!(pending.allocations[1].status, "pending");
    assert_eq!(pending.unattributed_withdrawals[0].amount_minor, 12);
    assert_eq!(pending.provider_events.len(), 1);
    assert_eq!(pending.stale_valuations, vec!["bank:fund:COP".to_string()]);
    assert_eq!(pending.missing_valuations, vec!["bank:cash:COP".to_string()]);
    assert_eq!(pending.missing_snapshot_positions, vec!["bank:cash:COP".to_string()]);
    assert_eq!(positions.len(), 2);
    assert_eq!(positions[0].instrument_id, None);
    assert_eq!(positions[0].reconciliation_status, "no_snapshot");
    assert_eq!(positions[0].freshness, "unavailable");
    assert_eq!(positions[1].instrument_type.as_deref(), Some("fund"));
    assert_eq!(positions[1].quantity.as_deref(), Some("3"));
    assert_eq!(positions[1].effective_date.as_deref(), Some("2026-06-30"));
    assert_eq!(positions[1].reconciliation_status, "stale");
}

#[test]
fn validating_attribution_replays_everything() {
    assert_eq!(validate_brokerage_attribution(&vec![cash_row("b", "deposit", "2020-01-01", 10, 10)]), Ok(()));
}

#[test]
fn a_report_that_cannot_be_computed_is_answered_with_none() {
    let mut i = inputs();
    let mut buy = cash_row("broker", "buy", "2026-06-02", 10, -10);
    buy.origin_external = i64::MIN;
    i.brokerage = vec![buy];
    assert!(report_filtered_checked("2026-06-01", "2026-06-30", None, &vec![], &i).is_none());

    let mut i = inputs();
    i.closing.snapshots = vec![SnapshotComparison {
        positions: vec![],
        provider_effective_date: None,
        observed_at: "2026-06-0é".into(),
        reconciliations: vec![],
    }];
    assert!(report_filtered_checked("2026-06-01", "2026-06-30", None, &vec![], &i).is_none());

    let ok = report_filtered_checked("2026-06-01", "2026-06-30", None, &vec![], &inputs()).unwrap().unwrap();
    assert!(ok.ok);
    let invalid = report_filtered_checked("x", "2026-06-30", None, &vec![], &inputs()).unwrap().unwrap();
    assert_eq!(invalid.errors[0].code, "invalid_from_date");
}
