use tracky::documents::{EventType, MatchStatus, Provider, ReconciliationKind, ReviewDecision, ReviewStatus};
use tracky::enrichment::{enrich, preview, EnrichmentAction, LifecycleAction, Request, StoredOperation};
use tracky::provider_review::{check_movement, reconciliation_candidates, snapshot_for, ProviderEvent};

fn event(kind: EventType, status: ReviewStatus) -> ProviderEvent {
    ProviderEvent {
        id: "evt".into(),
        provider: Provider::Nu,
        parser_id: "nu".into(),
        parser_version: "1".into(),
        event_type: kind,
        provider_effective_date: "2026-06-24".into(),
        currency: "COP".into(),
        amount_minor: Some(90_000_000),
        instrument_hint: Some("CDT".into()),
        quantity: Some("1".into()),
        external_reference: None,
        page_number: 1,
        row_index: 0,
        evidence_redaction: "<amount>".into(),
        fingerprint: "abc".into(),
        status,
        decision: None,
        reconciled_kind: None,
        reconciled_id: None,
        source_document_id: "src".into(),
        import_batch_id: None,
        account_id: None,
        provenance_id: None,
        accepted_snapshot_id: None,
    }
}

#[test]
fn a_single_target_is_a_unique_match() {
    let c = reconciliation_candidates(&event(EventType::Deposit, ReviewStatus::PendingReview), true, true,
        vec!["tx1".into()], vec![]);
    assert_eq!(c.len(), 1);
    assert_eq!(c[0].status, MatchStatus::UniqueMatch);
    assert_eq!(c[0].target_kind, Some(ReconciliationKind::CanonicalTransaction));
    assert_eq!(c[0].target_id.as_deref(), Some("tx1"));
    assert_eq!(c[0].reason, "Exact direction-aware compatible target.");
}

#[test]
fn several_targets_are_ambiguous_and_none_is_unmatched() {
    let c = reconciliation_candidates(&event(EventType::Withdrawal, ReviewStatus::PendingReview), true, true,
        vec!["tx1".into()], vec!["evt2".into()]);
    assert_eq!(c.len(), 2);
    assert_eq!(c[1].status, MatchStatus::AmbiguousMatch);
    assert_eq!(c[1].target_kind, Some(ReconciliationKind::ProviderEvent));
    let c = reconciliation_candidates(&event(EventType::Deposit, ReviewStatus::PendingReview), true, true, vec![], vec![]);
    assert_eq!(c[0].status, MatchStatus::Unmatched);
    let c = reconciliation_candidates(&event(EventType::ObservedPosition, ReviewStatus::PendingReview), true, true,
        vec!["tx".into()], vec![]);
    assert_eq!(c[0].status, MatchStatus::Incompatible);
    let c = reconciliation_candidates(&event(EventType::Deposit, ReviewStatus::Accepted), true, true, vec![], vec![]);
    assert_eq!(c[0].status, MatchStatus::AlreadyReconciled);
    let c = reconciliation_candidates(&event(EventType::Deposit, ReviewStatus::PendingReview), false, true, vec![], vec![]);
    assert_eq!(c[0].status, MatchStatus::Incompatible);
}

#[test]
fn movement_reconciliation_requires_the_unique_candidate() {
    let e = Some(event(EventType::Deposit, ReviewStatus::PendingReview));
    let unique = reconciliation_candidates(e.as_ref().unwrap(), true, true, vec!["tx1".into()], vec![]);
    assert!(check_movement(ReviewDecision::ReconcileDeposit, ReconciliationKind::CanonicalTransaction, &e, &unique, "tx1").is_ok());
    let err = check_movement(ReviewDecision::ReconcileDeposit, ReconciliationKind::CanonicalTransaction, &e, &unique, "tx2")
        .err().unwrap();
    assert_eq!(err.code, "reconciliation_mismatch");
    let err = check_movement(ReviewDecision::ReconcileWithdrawal, ReconciliationKind::CanonicalTransaction, &e, &unique, "tx1")
        .err().unwrap();
    assert_eq!(err.code, "incompatible_event_type");
    let err = check_movement(ReviewDecision::ReconcileDeposit, ReconciliationKind::CdtOperation, &e, &unique, "tx1")
        .err().unwrap();
    assert_eq!(err.code, "invalid_reconciliation_kind");
}

#[test]
fn observed_positions_become_named_snapshots() {
    let e = Some(event(EventType::ObservedPosition, ReviewStatus::PendingReview));
    assert_eq!(snapshot_for(&e, true).ok().unwrap(), "snapshot_ba7816bf8f01cfea414140de");
    assert_eq!(snapshot_for(&e, false).err().unwrap().code, "snapshot_target_incompatible");
    assert_eq!(snapshot_for(&None, true).err().unwrap().code, "event_not_found");
    let reviewed = Some(event(EventType::ObservedPosition, ReviewStatus::Rejected));
    assert_eq!(snapshot_for(&reviewed, true).err().unwrap().code, "event_not_pending");
    let cash = Some(event(EventType::ObservedCash, ReviewStatus::PendingReview));
    assert_eq!(snapshot_for(&cash, true).err().unwrap().code, "incomplete_snapshot");
}

#[test]
fn cdt_events_preview_their_lifecycle_actions() {
    let opening = preview(&Some(event(EventType::CdtOpening, ReviewStatus::PendingReview))).ok().unwrap();
    let actions: Vec<LifecycleAction> = opening.iter().map(|p| p.action).collect();
    assert_eq!(actions, vec![LifecycleAction::Constitution, LifecycleAction::LinkExisting]);
    assert_eq!(opening[0].required_reviewer_fields, vec!["allocation_id", "maturity_date", "allows_partial_redemption"]);
    let ret = preview(&Some(event(EventType::CdtReturn, ReviewStatus::PendingReview))).ok().unwrap();
    assert_eq!(ret.len(), 3);
    assert_eq!(preview(&Some(event(EventType::Deposit, ReviewStatus::PendingReview))).err().unwrap().code,
        "incompatible_event_type");
}

#[test]
fn linking_requires_an_exactly_matching_operation() {
    let e = Some(event(EventType::CdtOpening, ReviewStatus::PendingReview));
    let stored = Some(StoredOperation {
        operation_type: "constitution".into(),
        effective_date: "2026-06-24".into(),
        currency: "COP".into(),
        principal_after_minor: 90_000_000,
        net_cash_received_minor: 0,
    });
    let link = || Request::LinkExisting { operation_revision_id: "rev".into() };
    match enrich(&e, link(), true, &stored).ok().unwrap() {
        EnrichmentAction::Link { operation_revision_id, .. } => assert_eq!(operation_revision_id, "rev"),
        _ => panic!("expected a link"),
    }
    let other = Some(StoredOperation {
        operation_type: "constitution".into(),
        effective_date: "2026-06-25".into(),
        currency: "COP".into(),
        principal_after_minor: 90_000_000,
        net_cash_received_minor: 0,
    });
    assert_eq!(enrich(&e, link(), true, &other).err().unwrap().code, "existing_operation_incompatible");
    assert_eq!(enrich(&e, link(), true, &None).err().unwrap().code, "cdt_operation_not_found");
    assert_eq!(enrich(&e, link(), false, &stored).err().unwrap().code, "cdt_target_incompatible");
    let redeem = Request::Redemption {
        position_id: "p".into(),
        principal_returned_minor: 1,
        gross_interest_minor: 0,
        withholding_minor: 0,
        other_deductions_minor: 0,
        deduction_component_id: None,
        deduction_expense_transaction_id: None,
    };
    assert_eq!(enrich(&e, redeem, true, &stored).err().unwrap().code, "incompatible_lifecycle_action");
}
