use tracky::dates::{days_in_month_exec, valid_currency, valid_date};
use tracky::decimal::{format_decimal, parse_decimal, parse_report_quantity};
use tracky::documents::digest;
use tracky::exact::{canonical_exact_decimal, ExactDecimal};
use tracky::ids::{digest_identifier, id_at_time, sha256_bytes, to_ascii_lowercase, to_ascii_uppercase, unique_id};
use tracky::text::{format_i64, str_lt, trimmed};

#[test]
fn calendar_dates_are_checked_exactly() {
    assert!(valid_date("2024-02-29"));
    assert!(!valid_date("2023-02-29"));
    assert!(!valid_date("2026-13-01"));
    assert!(!valid_date("2026-1-01"));
    assert!(!valid_date("2026/01/01"));
    assert_eq!(days_in_month_exec(1900, 2), 28);
    assert_eq!(days_in_month_exec(2000, 2), 29);
    assert_eq!(days_in_month_exec(2026, 4), 30);
}

#[test]
fn currencies_are_three_uppercase_letters() {
    assert!(valid_currency("COP"));
    assert!(!valid_currency("cop"));
    assert!(!valid_currency("COPX"));
}

#[test]
fn decimal_quantities_round_trip() {
    let q = parse_decimal("1.5").unwrap();
    assert_eq!(format_decimal(q), "1.5");
    assert_eq!(format_decimal(parse_decimal("10").unwrap()), "10");
    assert_eq!(parse_decimal("1.2345678901"), None);
    assert_eq!(parse_decimal("abc"), None);
    assert_eq!(parse_report_quantity("2.5"), parse_decimal("2.5"));
}

#[test]
fn exact_decimals_are_canonical() {
    assert_eq!(canonical_exact_decimal("010.500", false).as_deref(), Some("10.5"));
    assert_eq!(canonical_exact_decimal("0", false), None);
    assert_eq!(canonical_exact_decimal("0", true).as_deref(), Some("0"));
    assert_eq!(canonical_exact_decimal("-1", true), None);
    let a = ExactDecimal::parse("1.25").unwrap();
    let b = ExactDecimal::parse("2.5").unwrap();
    assert_eq!(a.checked_add(&b).unwrap().canonical(), "3.75");
    assert_eq!(ExactDecimal::zero().canonical(), "0");
}

#[test]
fn identifiers_are_sha256_digests() {
    let bytes = sha256_bytes("abc");
    assert_eq!(bytes.len(), 32);
    assert_eq!(bytes[0], 0xba);
    assert_eq!(digest("abc"), "ba7816bf8f01cfea414140de5dae2223b00361a396177a9cb410ff61f20015ad");
    assert_eq!(digest_identifier("instr", "abc"), "instr_ba7816bf8f01cfea414140de");
}

#[test]
fn clock_identifiers_carry_prefix_and_digest() {
    let id = id_at_time("alloc", "x", 7);
    assert!(id.starts_with("alloc_"));
    assert_eq!(id, id_at_time("alloc", "x", 7));
    assert_ne!(id, id_at_time("alloc", "x", 8));
    assert!(unique_id("cdtop", "seed").starts_with("cdtop_"));
}

#[test]
fn ascii_case_and_trimming() {
    assert_eq!(to_ascii_lowercase("AbC-ñ"), "abc-ñ");
    assert_eq!(to_ascii_uppercase("cop"), "COP");
    assert_eq!(trimmed("  a b \t"), "a b");
    assert_eq!(format_i64(-1234), "-1234");
    assert_eq!(format_i64(0), "0");
    assert!(str_lt("2026-01-01", "2026-01-02"));
    assert!(!str_lt("b", "a"));
}

#[test]
fn byte_digests_are_lower_case_hex() {
    assert_eq!(
        tracky::ids::hex_sha256(b"abc"),
        "ba7816bf8f01cfea414140de5dae2223b00361a396177a9cb410ff61f20015ad"
    );
    assert_eq!(tracky::ids::hex_sha256(&[]).len(), 64);
}
