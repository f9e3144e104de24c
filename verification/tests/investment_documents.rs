use tracky::documents::{date_slash, decimal, money, month, EventType, Provider, ReviewDecision};

#[test]
fn exact_money_parser_never_rounds_binary_floats() {
    assert_eq!(money("$1.234,56"), Some(123_456));
    assert_eq!(money("2,000,000.00"), Some(200_000_000));
    assert_eq!(money("-$0,01"), Some(-1));
}

#[test]
fn money_reads_signs_and_separators_of_printed_amounts() {
    assert_eq!(money("-$1.234.567,89"), Some(-123_456_789));
    assert_eq!(money("+$1.050.000,00"), Some(105_000_000));
    assert_eq!(money("580.21"), Some(58_021));
    assert_eq!(money("1.000"), Some(100_000));
    assert_eq!(money("12,5"), Some(12_500));
    assert_eq!(money("abc"), None);
    assert_eq!(money(""), None);
}

#[test]
fn decimal_reads_comma_decimals_exactly() {
    assert_eq!(decimal("10,2500").as_deref(), Some("10.25"));
    assert_eq!(decimal("1.234,50").as_deref(), Some("1234.5"));
    assert_eq!(decimal("0,000"), None);
    assert_eq!(decimal("3").as_deref(), Some("3"));
}

#[test]
fn slash_dates_become_iso_dates() {
    assert_eq!(date_slash("16/06/2026").as_deref(), Some("2026-06-16"));
    assert_eq!(date_slash("16/06"), None);
}

#[test]
fn spanish_month_abbreviations_map_to_numbers() {
    assert_eq!(month("ene"), "01");
    assert_eq!(month("ABR"), "04");
    assert_eq!(month("nov"), "11");
    assert_eq!(month("dic"), "12");
    assert_eq!(month("xyz"), "12");
}

#[test]
fn stored_names_parse_back_to_their_values() {
    for p in [Provider::Nu, Provider::Wenia, Provider::Plenti] {
        assert_eq!(Provider::parse(p.as_str()), Some(p));
    }
    for e in [
        EventType::Deposit,
        EventType::Withdrawal,
        EventType::CdtOpening,
        EventType::CdtReturn,
        EventType::ObservedCash,
        EventType::ObservedPosition,
    ] {
        assert_eq!(EventType::parse(e.as_str()), Some(e));
    }
    assert_eq!(ReviewDecision::parse("reject"), Some(ReviewDecision::Reject));
    assert_eq!(Provider::parse("bank"), None);
}

#[test]
fn a_leading_sign_negates_or_keeps_an_amount() {
    for text in ["$1.234,56", "2,000,000.00", "1.050.000", "12", "$0,5"] {
        let plain = money(text);
        assert_eq!(money(&format!("-{text}")), plain.map(|v| -v));
        assert_eq!(money(&format!("+{text}")), plain);
    }
    assert_eq!(money("-12"), Some(-1_200));
}
