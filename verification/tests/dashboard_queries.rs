use tracky::dashboard::{
    decode_query_component, drill_request_from_pairs, filters_from_pairs, hex_value, one, parse_metric,
    query_pairs, snapshot_query_allowed, validate_currency, validated_dates,
};
use tracky::finance::{DrillMetric, FinanceFilterRequest};

fn defaults() -> FinanceFilterRequest {
    FinanceFilterRequest {
        start_date: "2025-07-01".to_string(),
        end_date: "2026-06-30".to_string(),
        currency: Some("COP".to_string()),
        account_ids: None,
        category_ids: Some(vec!["food".to_string()]),
    }
}

#[test]
fn hex_digits_of_either_case() {
    assert_eq!(hex_value(b'0'), Some(0));
    assert_eq!(hex_value(b'9'), Some(9));
    assert_eq!(hex_value(b'a'), Some(10));
    assert_eq!(hex_value(b'F'), Some(15));
    assert_eq!(hex_value(b'g'), None);
}

#[test]
fn query_components_decode_escapes_and_plus() {
    assert_eq!(decode_query_component("a%20b+c").ok(), Some("a b c".to_string()));
    assert_eq!(decode_query_component("%E2%82%AC").ok(), Some("€".to_string()));
    assert!(decode_query_component("%4").is_err());
    assert!(decode_query_component("%zz").is_err());
    assert!(decode_query_component("é").is_err());
    assert!(decode_query_component("%C3").is_err());
    assert_eq!(decode_query_component("").ok(), Some(String::new()));
}

#[test]
fn query_strings_group_values_by_key() {
    let q = query_pairs(Some("start=2026-01-01&account=a&&account=b%20c")).ok().unwrap();
    assert_eq!(one(&q, "start"), Some("2026-01-01".to_string()));
    assert_eq!(one(&q, "account"), Some("a".to_string()));
    assert_eq!(one(&q, "end"), None);
    let accounts = q.iter().find(|(k, _)| k == "account").unwrap();
    assert_eq!(accounts.1, vec!["a".to_string(), "b c".to_string()]);
    assert!(query_pairs(None).ok().unwrap().is_empty());
    assert!(query_pairs(Some("")).ok().unwrap().is_empty());
    assert!(query_pairs(Some("start=a&start=b")).is_err());
    assert!(query_pairs(Some("start")).is_err());
    assert!(query_pairs(Some("start=%")).is_err());
    assert_eq!(one(&query_pairs(Some("cursor=a=b")).ok().unwrap(), "cursor"), Some("a=b".to_string()));
}

#[test]
fn filters_replace_defaults_key_by_key() {
    let q = query_pairs(Some("end=2026-03-31&account=x&account=y")).ok().unwrap();
    let f = filters_from_pairs(&q, &defaults()).ok().unwrap();
    assert_eq!(f.start_date, "2025-07-01");
    assert_eq!(f.end_date, "2026-03-31");
    assert_eq!(f.currency, Some("COP".to_string()));
    assert_eq!(f.account_ids, Some(vec!["x".to_string(), "y".to_string()]));
    assert_eq!(f.category_ids, Some(vec!["food".to_string()]));
    let empty = query_pairs(None).ok().unwrap();
    assert_eq!(filters_from_pairs(&empty, &defaults()).ok().unwrap(), defaults());
    let unknown = query_pairs(Some("sort=asc")).ok().unwrap();
    assert!(filters_from_pairs(&unknown, &defaults()).is_err());
}

#[test]
fn snapshot_queries_hold_only_filter_keys() {
    assert!(snapshot_query_allowed(&query_pairs(Some("start=a&category=b")).ok().unwrap()));
    assert!(!snapshot_query_allowed(&query_pairs(Some("metric=income")).ok().unwrap()));
}

#[test]
fn drill_requests_need_a_metric_and_valid_month_and_limit() {
    let ok = query_pairs(Some("metric=income&month=2026-02&limit=10&cursor=abc")).ok().unwrap();
    let d = drill_request_from_pairs(&ok, &defaults()).ok().unwrap();
    assert_eq!(d.metric, DrillMetric::Income);
    assert_eq!(d.month, Some("2026-02".to_string()));
    assert_eq!(d.limit, 10);
    assert_eq!(d.cursor, Some("abc".to_string()));
    assert_eq!(d.filters, defaults());
    let plain = query_pairs(Some("metric=activity")).ok().unwrap();
    let d = drill_request_from_pairs(&plain, &defaults()).ok().unwrap();
    assert_eq!(d.limit, 50);
    assert_eq!(d.month, None);
    for bad in [
        "month=2026-02",
        "metric=bogus",
        "metric=income&month=2026-13",
        "metric=income&month=2026-2",
        "metric=income&month=20a6-02",
        "metric=income&limit=0",
        "metric=income&limit=101",
        "metric=income&limit=x",
        "metric=income&sort=1",
    ] {
        let q = query_pairs(Some(bad)).ok().unwrap();
        assert!(drill_request_from_pairs(&q, &defaults()).is_err(), "{bad}");
    }
    let signed = query_pairs(Some("metric=income&month=2026-%2B1&limit=%2B5")).ok().unwrap();
    let d = drill_request_from_pairs(&signed, &defaults()).ok().unwrap();
    assert_eq!(d.month, Some("2026-+1".to_string()));
    assert_eq!(d.limit, 5);
}

#[test]
fn metrics_and_currencies_are_checked() {
    assert_eq!(parse_metric("net_cash_flow"), Some(DrillMetric::NetCashFlow));
    assert_eq!(parse_metric("Income"), None);
    assert_eq!(validate_currency("USD").ok(), Some("USD".to_string()));
    assert_eq!(
        validate_currency("usd").err(),
        Some("currency must be a three-letter uppercase ISO code".to_string())
    );
    assert!(validate_currency("COPX").is_err());
}

#[test]
fn explicit_dates_come_back_in_chrono_form() {
    assert_eq!(
        validated_dates(Some("2024-01-01"), Some("2024-03-31"), (2024, 5, 10)),
        Ok(("2024-01-01".to_string(), "2024-03-31".to_string()))
    );
}

#[test]
fn default_range_spans_twelve_months_to_today() {
    assert_eq!(
        validated_dates(None, None, (2024, 5, 10)),
        Ok(("2023-06-01".to_string(), "2024-05-10".to_string()))
    );
    assert_eq!(
        validated_dates(None, None, (2024, 12, 31)),
        Ok(("2024-01-01".to_string(), "2024-12-31".to_string()))
    );
    assert_eq!(
        validated_dates(None, Some("2024-02-29"), (2024, 1, 15)),
        Ok(("2023-02-01".to_string(), "2024-02-29".to_string()))
    );
}

#[test]
fn date_range_errors_name_the_failing_date() {
    assert_eq!(
        validated_dates(Some("2024-02-30"), Some("bad"), (2024, 5, 10)),
        Err("end date must use YYYY-MM-DD".to_string())
    );
    assert_eq!(
        validated_dates(Some("01/02/2024"), None, (2024, 5, 10)),
        Err("start date must use YYYY-MM-DD".to_string())
    );
    assert_eq!(
        validated_dates(Some("2024-05-11"), None, (2024, 5, 10)),
        Err("start date must be on or before end date".to_string())
    );
    assert_eq!(
        validated_dates(None, Some("2023-05-31"), (2024, 5, 10)),
        Err("start date must be on or before end date".to_string())
    );
}
