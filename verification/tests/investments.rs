use tracky::investments::{
    create_instrument, inspect_instrument, list_positions, InstrumentCreateInput, PositionError, PositionRow,
};

fn input(name: &str, kind: &str, currency: &str, provider: &str) -> InstrumentCreateInput {
    InstrumentCreateInput {
        name: name.into(),
        instrument_type: kind.into(),
        denomination_currency: currency.into(),
        provider: provider.into(),
        provider_identifier: Some("ID-1".into()),
    }
}

#[test]
fn instruments_are_normalized_and_identified_by_digest() {
    let i = create_instrument(input(" Fondo ", " Security ", "cop", " Nu ")).ok().unwrap();
    assert_eq!(i.name, "Fondo");
    assert_eq!(i.instrument_type, "security");
    assert_eq!(i.denomination_currency, "COP");
    assert_eq!(i.provider, "Nu");
    assert!(i.id.starts_with("instr_"));
    assert_eq!(i.id.len(), "instr_".len() + 24);
    let again = create_instrument(input("Fondo", "security", "COP", "Nu")).ok().unwrap();
    assert_eq!(i.id, again.id);
}

#[test]
fn instrument_refusals() {
    assert_eq!(create_instrument(input("x", "crypto-ish", "COP", "Nu")).err().unwrap().errors[0].code, "invalid_instrument_type");
    assert_eq!(create_instrument(input("x", "security", "CO", "Nu")).err().unwrap().errors[0].code, "invalid_currency");
    let e = create_instrument(input(" ", "security", "COP", "Nu")).err().unwrap();
    assert_eq!(e.errors[0].code, "required_field");
    assert_eq!(e.errors[0].path, "name");
    assert_eq!(inspect_instrument(None).errors[0].code, "instrument_not_found");
}

fn row(account: &str, instrument: &str, quantity: &str, cash: i64, fee: Option<(i64, &str, &str)>, id: &str) -> PositionRow {
    PositionRow {
        account_id: account.into(),
        instrument_id: instrument.into(),
        acquired_quantity: quantity.into(),
        cash_amount_minor: cash,
        cash_currency: "COP".into(),
        fee_amount_minor: fee.map(|f| f.0),
        fee_currency: fee.map(|f| f.1.to_string()),
        fee_treatment: fee.map(|f| f.2.to_string()),
        revision_id: id.into(),
    }
}

#[test]
fn positions_add_exact_quantities_and_capitalized_fees() {
    let rows = vec![
        row("b", "fund", "1.25", 100, Some((5, "COP", "capitalized")), "r1"),
        row("a", "fund", "2", 50, None, "r2"),
        row("b", "fund", "0.75", 200, Some((7, "COP", "separate")), "r3"),
    ];
    let r = list_positions(&rows).unwrap();
    assert_eq!(r.command, "investments positions");
    assert_eq!(r.positions.len(), 2);
    assert_eq!(r.positions[0].account_id, "a");
    assert_eq!(r.positions[1].account_id, "b");
    assert_eq!(r.positions[1].quantity, "2");
    assert_eq!(r.positions[1].accumulated_cost_minor, 305);
    assert_eq!(r.positions[1].latest_contributing_operation_id, "r3");
}

#[test]
fn capitalized_fees_must_share_the_cash_currency() {
    let rows = vec![row("b", "fund", "1", 100, Some((5, "USD", "capitalized")), "r1")];
    assert_eq!(list_positions(&rows).err(), Some(PositionError::CapitalizedFeeCurrencyMismatch));
    let rows = vec![row("b", "fund", "1", i64::MAX, None, "r1"), row("b", "fund", "1", 1, None, "r2")];
    assert_eq!(list_positions(&rows).err(), Some(PositionError::CostOverflow));
}
