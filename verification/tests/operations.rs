use tracky::investment_integrity::{
    check_findings, exact_quantity_findings, findings, validate_checked_totals, ContributionPart, ExactDecimalValues,
    FindingKind, FundingAttribution, IntegrityError, IntegrityInputs, SignedDecimalValue,
};
use tracky::operations::{default_backup_path, integrity, IntegrityProbe};

fn healthy() -> IntegrityProbe {
    IntegrityProbe {
        open: Ok(()),
        integrity_check: Ok("ok".to_string()),
        user_version: Some(1),
        table_counts: vec![Ok(3), Ok(2), Ok(1), Ok(10), Ok(12), Ok(0), Ok(4)],
        reference_checks: vec![Ok(0); 6],
    }
}

#[test]
fn a_healthy_database_reports_counts_and_no_findings() {
    let r = integrity(&healthy());
    assert!(r.ok);
    assert_eq!(r.schema_version, "tracky.integrity.v1");
    assert_eq!(r.command, "integrity");
    assert_eq!(r.sqlite_integrity, "ok");
    assert_eq!(r.counts.len(), 7);
    assert_eq!(r.counts[0].entity, "accounts");
    assert_eq!(r.counts[3].count, 10);
    assert!(r.findings.is_empty());
}

#[test]
fn broken_references_and_schema_versions_are_findings() {
    let mut p = healthy();
    p.user_version = Some(2);
    p.reference_checks[2] = Ok(5);
    let r = integrity(&p);
    assert!(!r.ok);
    let codes: Vec<&str> = r.findings.iter().map(|f| f.code.as_str()).collect();
    assert_eq!(codes, vec!["unsupported_schema_version", "line_transaction_missing"]);
    assert_eq!(r.findings[1].count, 5);
    assert_eq!(r.findings[1].entity, "transaction_lines");
}

#[test]
fn open_and_query_failures_are_errors() {
    let mut p = healthy();
    p.open = Err("locked".to_string());
    let r = integrity(&p);
    assert_eq!(r.errors[0].code, "database_open_failed");
    assert_eq!(r.errors[0].message, "locked");
    assert_eq!(r.sqlite_integrity, "not_run");
    let mut p = healthy();
    p.integrity_check = Err("bad".to_string());
    assert_eq!(integrity(&p).errors[0].code, "integrity_check_failed");
    let mut p = healthy();
    p.integrity_check = Ok("row 3 missing".to_string());
    let r = integrity(&p);
    assert_eq!(r.findings[0].code, "sqlite_integrity_failed");
    assert!(!r.ok);
}

#[test]
fn backups_go_beside_the_source() {
    assert_eq!(default_backup_path("/data/tracky.sqlite", "20260101T000000Z"), "/data/tracky-20260101T000000Z.sqlite3");
    assert_eq!(default_backup_path("books.db", "t"), "books-t.sqlite3");
}

fn counts_with(i: usize, n: i64) -> Vec<i64> {
    let mut v = vec![0; 28];
    v[i] = n;
    v
}

#[test]
fn stored_check_counts_become_findings() {
    let f = check_findings(&counts_with(6, 2));
    assert_eq!(f.len(), 1);
    assert_eq!(f[0].kind, FindingKind::Invariant);
    assert_eq!(f[0].code, "cdt_instrument_incompatible");
    assert_eq!(f[0].entity, "cdt_positions");
    assert_eq!(f[0].count, 2);
    assert!(check_findings(&vec![0; 28]).is_empty());
}

#[test]
fn non_canonical_decimals_are_counted() {
    let v = ExactDecimalValues {
        quantities: vec!["1.5".into(), "01.5".into(), "0".into()],
        rates: vec!["0".into(), "1.50".into()],
        signed: vec![
            SignedDecimalValue { value: "-1.5".into(), canonical: Some("-1.5".into()) },
            SignedDecimalValue { value: "x".into(), canonical: None },
        ],
    };
    let f = exact_quantity_findings(&v).unwrap().unwrap();
    assert_eq!(f.code, "investment_exact_decimal_invalid");
    assert_eq!(f.entity, "investment_quantities");
    assert_eq!(f.count, 4);
    let clean = ExactDecimalValues { quantities: vec!["2".into()], rates: vec![], signed: vec![] };
    assert!(exact_quantity_findings(&clean).unwrap().is_none());
}

fn part(id: &str, signed: i64, allocated: i64) -> ContributionPart {
    ContributionPart { contribution_id: id.into(), signed_amount_minor: signed, allocated_minor: allocated }
}

fn attribution(parts: [i64; 5], cost: Option<i64>, kind: Option<&str>) -> FundingAttribution {
    FundingAttribution {
        external_capital_minor: parts[0],
        existing_cash_minor: parts[1],
        reinvested_minor: parts[2],
        investment_income_minor: parts[3],
        unattributed_minor: parts[4],
        historical_cost_minor: cost,
        operation_type: kind.map(str::to_string),
    }
}

#[test]
fn checked_totals_find_overallocation_and_inconsistent_funding() {
    let parts = vec![part("c1", -100, 60), part("c1", -100, 50), part("c2", -10, 5), part("c3", i64::MIN, 1)];
    let attributions = vec![
        attribution([10, 0, 0, 0, 0], Some(10), Some("buy")),
        attribution([10, 5, 0, 0, 0], Some(10), Some("buy")),
        attribution([1, 0, 0, 0, 0], Some(1), Some("sell")),
    ];
    let f = validate_checked_totals(&parts, &attributions).unwrap();
    let codes: Vec<&str> = f.iter().map(|x| x.code.as_str()).collect();
    assert_eq!(codes, vec![
        "contribution_amount_overflow",
        "active_allocation_exceeds_contribution",
        "brokerage_funding_attribution_inconsistent",
    ]);
    assert_eq!(f[1].count, 1);
    assert_eq!(f[2].count, 2);
}

#[test]
fn all_findings_in_order_with_replay_failures() {
    let inputs = IntegrityInputs {
        check_counts: counts_with(0, 1),
        decimals: ExactDecimalValues { quantities: vec![], rates: vec![], signed: vec![] },
        contribution_parts: vec![],
        attributions: vec![],
        brokerage_replays: false,
        cdt_replays: true,
        reconciliation_valid: false,
    };
    let f = findings(&inputs).unwrap();
    let codes: Vec<&str> = f.iter().map(|x| x.code.as_str()).collect();
    assert_eq!(codes, vec!["allocation_reference_missing", "brokerage_replay_impossible", "reconciliation_state_impossible"]);
    assert_eq!(f[0].kind, FindingKind::Broken);
    assert_eq!(IntegrityError::QuantityFindingOverflow, IntegrityError::QuantityFindingOverflow);
}

#[test]
fn backup_reports_follow_destination_and_copy_outcome() {
    let refused = tracky::operations::backup_response("db.sqlite3", "copy.sqlite3", true, Ok(()));
    assert!(!refused.ok);
    assert_eq!(refused.errors[0].code, "destination_exists");
    assert!(refused.destination.is_none());
    let done = tracky::operations::backup_response("db.sqlite3", "copy.sqlite3", false, Ok(()));
    assert!(done.ok);
    assert_eq!(done.destination.as_deref(), Some("copy.sqlite3"));
    assert_eq!(done.schema_version, "tracky.backup.v1");
    let failed = tracky::operations::backup_response("db.sqlite3", "copy.sqlite3", false, Err("disk full".to_string()));
    assert!(!failed.ok);
    assert_eq!(failed.errors[0].code, "backup_failed");
    assert_eq!(failed.errors[0].message, "disk full");
    assert_eq!(failed.errors[0].path, "backup");
}
