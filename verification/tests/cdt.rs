use tracky::cdt::{
    cdt_error, constitute_cdt, redeem_cdt, validate_operation_sequence, CdtConstitutionInput, CdtOperation,
    CdtRedemptionInput, CdtTermsInput, ConstitutionAllocation, ConstitutionFacts, DeductionFacts,
};

fn terms(maturity: &str) -> CdtTermsInput {
    CdtTermsInput {
        maturity_date: maturity.to_string(),
        agreed_rate: Some("10.50".to_string()),
        payment_mode: Some("  at_maturity ".to_string()),
        payment_periodicity: Some("   ".to_string()),
        renewal_terms: None,
        contract_identifier: None,
        allows_partial_redemption: false,
    }
}

fn allocation(amount: i64) -> ConstitutionAllocation {
    ConstitutionAllocation {
        contribution_id: "contrib".to_string(),
        instrument_id: "ins".to_string(),
        allocated_minor: amount,
        allocation_currency: "COP".to_string(),
        account_id: Some("acct".to_string()),
        instrument_type: "fixed_income".to_string(),
        denomination_currency: "COP".to_string(),
    }
}

fn constitution(principal: i64, maturity: &str) -> CdtConstitutionInput {
    CdtConstitutionInput {
        allocation_id: "alloc".to_string(),
        principal_minor: principal,
        currency: " cop ".to_string(),
        constitution_date: "2026-01-15".to_string(),
        terms: terms(maturity),
    }
}

fn constituted() -> CdtOperation {
    let facts = ConstitutionFacts { allocation: Some(allocation(1_000_000)), already_consumed: false };
    constitute_cdt(constitution(1_000_000, "2026-07-15"), facts, "op1".into(), "rev1".into()).ok().unwrap().operation
}

#[test]
fn constitution_records_the_allocated_principal_and_normalized_terms() {
    let op = constituted();
    assert_eq!(op.operation_type, "constitution");
    assert_eq!(op.currency, "COP");
    assert_eq!(op.principal_before_minor, 0);
    assert_eq!(op.principal_after_minor, 1_000_000);
    assert_eq!(op.external_capital_minor, 1_000_000);
    assert_eq!(op.terms.agreed_rate.as_deref(), Some("10.5"));
    assert_eq!(op.terms.payment_mode.as_deref(), Some("at_maturity"));
    assert_eq!(op.terms.payment_periodicity, None);
    assert_eq!(op.funding_contribution_id.as_deref(), Some("contrib"));
    assert_eq!(op.id, "rev1");
    assert_eq!(op.operation_id, "op1");
    assert_eq!(op.revision, 1);
}

#[test]
fn constitution_refusals_name_the_first_failed_rule() {
    let facts = || ConstitutionFacts { allocation: Some(allocation(1_000_000)), already_consumed: false };
    let e = constitute_cdt(constitution(0, "2026-07-15"), facts(), "o".into(), "r".into()).err().unwrap();
    assert_eq!(e.errors[0].code, "invalid_principal");
    let e = constitute_cdt(constitution(1_000_000, "2026-01-15"), facts(), "o".into(), "r".into()).err().unwrap();
    assert_eq!(e.errors[0].code, "invalid_maturity_date");
    let e = constitute_cdt(constitution(999_999, "2026-07-15"), facts(), "o".into(), "r".into()).err().unwrap();
    assert_eq!(e.errors[0].code, "principal_allocation_mismatch");
    let none = ConstitutionFacts { allocation: None, already_consumed: false };
    let e = constitute_cdt(constitution(1_000_000, "2026-07-15"), none, "o".into(), "r".into()).err().unwrap();
    assert_eq!(e.errors[0].code, "allocation_not_found");
    let used = ConstitutionFacts { allocation: Some(allocation(1_000_000)), already_consumed: true };
    let e = constitute_cdt(constitution(1_000_000, "2026-07-15"), used, "o".into(), "r".into()).err().unwrap();
    assert_eq!(e.errors[0].code, "allocation_already_consumed");
    assert_eq!(e.command, "cdts constitute");
}

fn redemption(date: &str, returned: i64, interest: i64, net: i64) -> CdtRedemptionInput {
    CdtRedemptionInput {
        position_id: "pos".into(),
        effective_date: date.into(),
        principal_returned_minor: returned,
        gross_interest_minor: interest,
        withholding_minor: 0,
        other_deductions_minor: 0,
        net_cash_received_minor: net,
        deduction_component_id: None,
        deduction_expense_transaction_id: None,
    }
}

fn no_deduction() -> DeductionFacts {
    DeductionFacts { component_used: false, canonical_expense: None }
}

#[test]
fn full_redemption_at_maturity_closes_the_principal() {
    let op = redeem_cdt(redemption("2026-07-15", 1_000_000, 50_000, 1_050_000), Some(constituted()), no_deduction(), false,
        "op2".into(), "rev2".into()).ok().unwrap();
    assert_eq!(op.operation_type, "redemption");
    assert_eq!(op.principal_before_minor, 1_000_000);
    assert_eq!(op.principal_after_minor, 0);
    assert_eq!(op.net_cash_received_minor, 1_050_000);
}

#[test]
fn redemption_refusals() {
    let e = redeem_cdt(redemption("2026-07-14", 1_000_000, 0, 1_000_000), Some(constituted()), no_deduction(), false,
        "o".into(), "r".into()).err().unwrap();
    assert_eq!(e.errors[0].code, "redemption_before_maturity");
    let e = redeem_cdt(redemption("2026-07-15", 1_000_000, 50_000, 1_000_000), Some(constituted()), no_deduction(), false,
        "o".into(), "r".into()).err().unwrap();
    assert_eq!(e.errors[0].code, "net_cash_mismatch");
    let e = redeem_cdt(redemption("2026-07-15", 500_000, 0, 500_000), Some(constituted()), no_deduction(), false,
        "o".into(), "r".into()).err().unwrap();
    assert_eq!(e.errors[0].code, "partial_redemption_not_allowed");
    let e = redeem_cdt(redemption("2026-07-15", 1_000_000, 0, 1_000_000), None, no_deduction(), false,
        "o".into(), "r".into()).err().unwrap();
    assert_eq!(e.errors[0].code, "cdt_position_not_found");
    let e = redeem_cdt(redemption("2026-07-15", 1_000_000, 0, 1_000_000), Some(constituted()), no_deduction(), true,
        "o".into(), "r".into()).err().unwrap();
    assert_eq!(e.errors[0].code, "duplicate_redemption");
}

#[test]
fn a_continuous_lifecycle_passes_the_sequence_check() {
    let first = constituted();
    let second = redeem_cdt(redemption("2026-07-15", 1_000_000, 0, 1_000_000), Some(constituted()), no_deduction(), false,
        "op2".into(), "rev2".into()).ok().unwrap();
    assert!(validate_operation_sequence("cdts inspect", &vec![first, second]).is_none());
}

#[test]
fn a_broken_lifecycle_is_refused() {
    let first = constituted();
    let mut second = redeem_cdt(redemption("2026-07-15", 1_000_000, 0, 1_000_000), Some(constituted()), no_deduction(),
        false, "op2".into(), "rev2".into()).ok().unwrap();
    second.principal_before_minor = 999;
    let e = validate_operation_sequence("cdts inspect", &vec![first, second]).unwrap();
    assert!(!e.ok);
    assert_eq!(e.command, "cdts inspect");
}

#[test]
fn cdt_errors_have_the_schema_and_one_failure() {
    let e = cdt_error("cdts list", "invalid_date", "Date must use YYYY-MM-DD.", "as_of");
    assert_eq!(e.schema_version, "tracky.cdts.v1");
    assert!(!e.ok);
    assert_eq!(e.errors.len(), 1);
    assert_eq!(e.errors[0].message, "Date must use YYYY-MM-DD.");
}
