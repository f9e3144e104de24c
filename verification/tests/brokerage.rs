use tracky::brokerage::{
    account_state, checked, derive_sale_economics, disposed_cost, err, open_brokerage, operation_kind,
    state_from_ops, BrokerageOpenInput, BrokerageOperation, OperationKind, ReplayError,
};

fn op(id: &str, kind: &str, gross: i64, net: i64, instrument: Option<&str>, quantity: Option<&str>) -> BrokerageOperation {
    BrokerageOperation {
        id: format!("rev_{id}"),
        operation_id: id.to_string(),
        revision: 1,
        operation_type: kind.to_string(),
        effective_date: "2026-01-01".to_string(),
        currency: "USD".to_string(),
        instrument_id: instrument.map(str::to_string),
        quantity: quantity.map(str::to_string),
        gross_amount_minor: gross,
        historical_cost_minor: 0,
        realized_result_minor: 0,
        fee_minor: 0,
        fee_treatment: None,
        withholding_minor: 0,
        other_deductions_minor: 0,
        net_cash_minor: net,
        funding_allocation_id: None,
        destination_account_id: None,
        linked_transaction_id: None,
        component_id: None,
        provenance_source: "manual_entry".to_string(),
        correction_reason: None,
        replaces_revision_id: None,
        created_at: "2026-01-01T00:00:00Z".to_string(),
    }
}

#[test]
fn operation_kinds_are_read_from_their_names() {
    assert_eq!(operation_kind("deposit"), OperationKind::Deposit);
    assert_eq!(operation_kind("buy"), OperationKind::Buy);
    assert_eq!(operation_kind("sell"), OperationKind::Sell);
    assert_eq!(operation_kind("dividend"), OperationKind::Dividend);
    assert_eq!(operation_kind("withdrawal"), OperationKind::Withdrawal);
    assert_eq!(operation_kind("transfer"), OperationKind::Other);
}

#[test]
fn checked_addition_reports_overflow() {
    assert_eq!(checked(2, 3), Ok(5));
    assert_eq!(checked(i64::MAX, 1), Err(ReplayError::MinorUnitOverflow));
}

#[test]
fn disposed_cost_is_proportional_and_whole_on_final_sale() {
    assert_eq!(disposed_cost(1_000, 1, 4), Some(250));
    assert_eq!(disposed_cost(1_000, 4, 4), Some(1_000));
    assert_eq!(disposed_cost(1_000, 1, 3), Some(333));
}

#[test]
fn deposit_buy_sell_and_withdrawal_replay_into_cash_and_positions() {
    let mut buy = op("b1", "buy", 600, -600, Some("ins"), Some("2"));
    buy.historical_cost_minor = 600;
    let ops = vec![
        op("d1", "deposit", 1_000, 1_000, None, None),
        buy,
        op("s1", "sell", 400, 400, Some("ins"), Some("1")),
        op("w1", "withdrawal", 100, -100, None, None),
    ];
    let mut ops = ops;
    derive_sale_economics(&mut ops).unwrap();
    assert_eq!(ops[2].historical_cost_minor, 300);
    assert_eq!(ops[2].realized_result_minor, 100);
    let state = state_from_ops(&ops).unwrap();
    assert_eq!(state.cash.len(), 1);
    assert_eq!(state.cash[0].available, 700);
    assert_eq!(state.cash[0].external, 1_000);
    assert_eq!(state.cash[0].withdrawals, 100);
    assert_eq!(state.cash[0].sales, 400);
    assert_eq!(state.cash[0].result, 100);
    assert_eq!(state.cash[0].latest, "w1");
    assert_eq!(state.positions.len(), 1);
    assert_eq!(state.positions[0].cost, 300);
    assert_eq!(state.positions[0].latest, "s1");
    let again = account_state(&mut ops.clone_ops()).unwrap();
    assert_eq!(again.cash[0].available, 700);
}

trait CloneOps {
    fn clone_ops(&self) -> Vec<BrokerageOperation>;
}

impl CloneOps for Vec<BrokerageOperation> {
    fn clone_ops(&self) -> Vec<BrokerageOperation> {
        self.iter().map(tracky::brokerage::copy_operation).collect()
    }
}

#[test]
fn cash_never_goes_negative() {
    let ops = vec![op("w1", "withdrawal", 100, -100, None, None)];
    assert_eq!(state_from_ops(&ops).err(), Some(ReplayError::NegativeCash));
}

#[test]
fn selling_more_than_held_is_refused() {
    let mut ops = vec![op("s1", "sell", 400, 400, Some("ins"), Some("1"))];
    assert_eq!(derive_sale_economics(&mut ops), Err(ReplayError::NegativePosition));
}

#[test]
fn opening_a_brokerage_checks_date_and_ownership() {
    let bad = open_brokerage(&BrokerageOpenInput { account_id: "a".into(), opened_date: "2026-02-30".into() }, true).unwrap();
    assert!(!bad.ok);
    assert_eq!(bad.errors[0].code, "invalid_date");
    assert_eq!(bad.errors[0].path, "opened_date");
    let missing = open_brokerage(&BrokerageOpenInput { account_id: "a".into(), opened_date: "2026-02-28".into() }, false).unwrap();
    assert_eq!(missing.errors[0].code, "account_not_found");
    assert!(open_brokerage(&BrokerageOpenInput { account_id: "a".into(), opened_date: "2024-02-29".into() }, true).is_none());
}

#[test]
fn error_responses_carry_one_validation_failure() {
    let r = err("brokerages buy", "invalid_quantity", "quantity");
    assert_eq!(r.schema_version, "tracky.brokerage.v1");
    assert_eq!(r.command, "brokerages buy");
    assert!(!r.ok);
    assert_eq!(r.errors.len(), 1);
    assert_eq!(r.errors[0].category, "validation_failure");
    assert_eq!(r.errors[0].message, "invalid quantity");
    assert!(r.errors[0].recoverable);
}

#[test]
fn cash_figures_are_the_sums_of_their_operations() {
    let mut fee = op("d2", "deposit", 500, 480, None, None);
    fee.fee_minor = 20;
    let mut cop = op("c1", "deposit", 70, 70, None, None);
    cop.currency = "COP".to_string();
    let ops = vec![
        op("d1", "deposit", 1_000, 1_000, None, None),
        cop,
        fee,
        op("w1", "withdrawal", 300, -300, None, None),
        op("v1", "dividend", 40, 40, None, None),
    ];
    let state = state_from_ops(&ops).unwrap();
    assert_eq!(state.cash.len(), 2);
    let usd = state.cash.iter().find(|c| c.currency == "USD").unwrap();
    assert_eq!(usd.available, 1_000 + 480 - 300 + 40);
    assert_eq!(usd.external, 1_500);
    assert_eq!(usd.withdrawals, 300);
    assert_eq!(usd.dividends, 40);
    assert_eq!(usd.fees, 20);
    let cop = state.cash.iter().find(|c| c.currency == "COP").unwrap();
    assert_eq!(cop.available, 70);
    assert_eq!(cop.external, 70);
}
