use tracky::finance::{
    drill_snapshot, finance_snapshot, month_buckets, parse_cursor, read_drill_down, read_finance, resolve_filters, sort_drill_rows, sorted_set_of, transport,
    validate_range, AccountDimension, CategoryDimension, Dimensions, DrillMetric, DrillRequest, DrillRow, ExpenseLineRow,
    FinanceError, FinanceFilterRequest, NumericMeasures, TransactionRow,
};

fn dims() -> Dimensions {
    Dimensions {
        currencies: vec!["COP".into(), "USD".into()],
        accounts: vec![
            AccountDimension { id: "cop-checking".into(), name: "COP Checking".into(), currency: "COP".into() },
            AccountDimension { id: "cop-savings".into(), name: "COP Savings".into(), currency: "COP".into() },
            AccountDimension { id: "usd-checking".into(), name: "USD Checking".into(), currency: "USD".into() },
        ],
        categories: vec![
            CategoryDimension { id: "food".into(), name: "Food".into(), currencies: vec!["COP".into()] },
            CategoryDimension { id: "housing".into(), name: "Housing".into(), currencies: vec!["COP".into(), "USD".into()] },
        ],
        instruments: vec![],
    }
}

fn request(currency: Option<&str>, accounts: Option<Vec<&str>>, categories: Option<Vec<&str>>) -> FinanceFilterRequest {
    FinanceFilterRequest {
        start_date: "2026-01-01".into(),
        end_date: "2026-03-31".into(),
        currency: currency.map(str::to_string),
        account_ids: accounts.map(|v| v.into_iter().map(str::to_string).collect()),
        category_ids: categories.map(|v| v.into_iter().map(str::to_string).collect()),
    }
}

fn tx(id: &str, account: &str, date: &str, amount: i64, kind: &str) -> TransactionRow {
    TransactionRow {
        id: id.into(),
        account_id: Some(account.into()),
        posted_date: date.into(),
        description: format!("tx {id}"),
        amount_minor: amount,
        currency: "COP".into(),
        kind: kind.into(),
    }
}

fn line(id: &str, tx: &str, date: &str, category: &str, amount: i64) -> ExpenseLineRow {
    ExpenseLineRow {
        id: id.into(),
        transaction_id: tx.into(),
        account_id: Some("cop-checking".into()),
        posted_date: date.into(),
        description: "line".into(),
        category_id: category.into(),
        category_name: category.into(),
        amount_minor: amount,
        currency: "COP".into(),
    }
}

fn data() -> (Vec<TransactionRow>, Vec<ExpenseLineRow>) {
    (
        vec![
            tx("t1", "cop-checking", "2026-01-05", 500_000, "income"),
            tx("t2", "cop-checking", "2026-01-10", -120_000, "expense"),
            tx("t3", "cop-savings", "2026-02-01", -50_000, "investment_contribution"),
            tx("t4", "cop-checking", "2026-03-15", -30_000, "expense"),
        ],
        vec![
            line("l1", "t2", "2026-01-10", "food", -70_000),
            line("l2", "t2", "2026-01-10", "housing", -50_000),
            line("l3", "t4", "2026-03-15", "food", -30_000),
        ],
    )
}

#[test]
fn months_of_a_range_are_listed_in_order() {
    assert_eq!(month_buckets("2025-11-20", "2026-02-01").unwrap(), vec!["2025-11", "2025-12", "2026-01", "2026-02"]);
    assert_eq!(month_buckets("2026-02-01", "2026-01-01").unwrap(), Vec::<String>::new());
    assert_eq!(month_buckets("2026-02-30", "2026-03-01").err(), Some(FinanceError::InvalidDate));
}

#[test]
fn ranges_must_parse_and_be_ordered() {
    assert_eq!(validate_range("2026-01-01", "2026-01-01"), Ok(()));
    assert_eq!(validate_range("2026-01-02", "2026-01-01"), Err(FinanceError::InvalidRange));
    assert_eq!(validate_range("x", "2026-01-01"), Err(FinanceError::InvalidDate));
}

#[test]
fn measures_are_sent_as_text_with_net_cash_flow() {
    let m = transport(NumericMeasures { income: 500, expense: 120, contribution: 50 }, Some("COP")).unwrap();
    assert_eq!(m.income_minor, "500");
    assert_eq!(m.net_cash_flow_minor, "380");
    assert_eq!(m.currency.as_deref(), Some("COP"));
    assert_eq!(transport(NumericMeasures { income: i64::MIN, expense: 1, contribution: 0 }, None).err(),
        Some(FinanceError::AmountOverflow));
}

#[test]
fn sorted_sets_drop_duplicates() {
    let v = vec!["b".to_string(), "a".to_string(), "b".to_string()];
    assert_eq!(sorted_set_of(&v), vec!["a".to_string(), "b".to_string()]);
}

#[test]
fn composed_filters_apply_categories_only_to_expenses_and_clear_incompatible_ids() {
    let f = resolve_filters(&request(Some("cop"), Some(vec!["usd-checking", "cop-checking"]), Some(vec!["food", "nope"])), &dims()).unwrap();
    assert_eq!(f.currency.as_deref(), Some("COP"));
    assert_eq!(f.account_ids, vec!["cop-checking".to_string()]);
    assert_eq!(f.category_ids, vec!["food".to_string()]);
    assert_eq!(f.category_scope, "expense_only");
    let f = resolve_filters(&request(None, None, None), &dims()).unwrap();
    assert_eq!(f.currency.as_deref(), Some("COP"));
    assert_eq!(f.account_ids, vec!["cop-checking".to_string(), "cop-savings".to_string()]);
    assert_eq!(f.category_scope, "all_expenses");
    assert_eq!(resolve_filters(&request(Some("EUR"), None, None), &dims()).err(), Some(FinanceError::UnavailableCurrency));

    let (mut txs, lines) = data();
    txs.push(TransactionRow {
        id: "usd-income-jan".into(),
        account_id: Some("usd-checking".into()),
        posted_date: "2026-01-20".into(),
        description: "USD income".into(),
        amount_minor: 10_000,
        currency: "USD".into(),
        kind: "income".into(),
    });
    let snapshot = |r: FinanceFilterRequest| {
        finance_snapshot(&r, &txs, &lines, dims().accounts, vec![], "now".into()).unwrap()
    };

    let empty = snapshot(request(Some("COP"), Some(vec![]), None));
    assert_eq!(empty.state, "filter_empty");
    assert_eq!(empty.monthly.len(), 3);
    assert!(empty.monthly.iter().all(|month| month.measures.net_cash_flow_minor == "0"));
    assert!(empty.categories.is_empty());
    assert!(empty.accounts.is_empty());

    let usd = snapshot(request(Some("USD"), None, None));
    assert_eq!(usd.summary.currency.as_deref(), Some("USD"));
    assert_eq!(usd.summary.income_minor, "10000");
    assert_eq!(usd.filters.account_ids, vec!["usd-checking".to_string()]);

    let canonicalized = snapshot(request(Some("usd"), None, None));
    assert_eq!(canonicalized.summary.currency.as_deref(), Some("USD"));
    assert_eq!(canonicalized.dimensions.currencies, vec!["COP".to_string(), "USD".to_string()]);
    assert_eq!(canonicalized.accounts[0].measures.currency.as_deref(), Some("USD"));

    let empty = snapshot(request(Some("COP"), None, Some(vec![])));
    assert_eq!(empty.state, "filter_empty");
    assert_eq!(empty.monthly.len(), 3);
}

fn income(id: &str, amount: i64) -> TransactionRow {
    tx(id, "cop-checking", "2026-01-02", amount, "income")
}

#[test]
fn valid_empty_and_checked_overflow_match_the_manual_adverse_state_oracles() {
    let empty = finance_snapshot(&request(Some("COP"), None, None), &vec![], &vec![], dims().accounts, vec![], "now".into());
    assert_eq!(empty.err(), Some(FinanceError::UnavailableCurrency));
    let valid_empty =
        finance_snapshot(&request(None, None, None), &vec![], &vec![], dims().accounts, vec![], "now".into()).unwrap();
    assert_eq!(valid_empty.state, "empty");
    assert!(valid_empty.dimensions.currencies.is_empty());
    assert!(valid_empty.monthly.is_empty());

    let mut rows = vec![income("max-income", i64::MAX)];
    let boundary =
        finance_snapshot(&request(Some("COP"), None, None), &rows, &vec![], dims().accounts, vec![], "now".into()).unwrap();
    assert_eq!(boundary.summary.income_minor, i64::MAX.to_string());
    rows.push(income("one-income", 1));
    let overflow = finance_snapshot(&request(Some("COP"), None, None), &rows, &vec![], dims().accounts, vec![], "now".into());
    assert_eq!(overflow.err(), Some(FinanceError::AmountOverflow));
}

#[test]
fn rows_outside_the_range_months_are_refused() {
    let rows = vec![income("late", 5)];
    let mut r = request(Some("COP"), None, None);
    r.end_date = "2025-12-31".into();
    r.start_date = "2025-12-01".into();
    assert_eq!(
        finance_snapshot(&r, &rows, &vec![], dims().accounts, vec![], "now".into()).err(),
        Some(FinanceError::UnreadableData)
    );
}

#[test]
fn finance_model_sums_by_month_category_and_account() {
    let (txs, lines) = data();
    let r = read_finance(&request(None, None, None), &txs, &lines, dims(), "now".into()).unwrap();
    assert_eq!(r.state, "ready");
    assert_eq!(r.schema_version, "tracky.dashboard.v1");
    assert_eq!(r.summary.income_minor, "500000");
    assert_eq!(r.summary.consumption_expense_minor, "150000");
    assert_eq!(r.summary.net_cash_flow_minor, "350000");
    assert_eq!(r.summary.investment_contribution_minor, "50000");
    let months: Vec<&str> = r.monthly.iter().map(|m| m.month.as_str()).collect();
    assert_eq!(months, vec!["2026-01", "2026-02", "2026-03"]);
    assert_eq!(r.monthly[0].measures.consumption_expense_minor, "120000");
    assert_eq!(r.monthly[1].measures.investment_contribution_minor, "50000");
    assert_eq!(r.categories.len(), 2);
    assert_eq!(r.categories[0].category_id, "food");
    assert_eq!(r.categories[0].category_name, "Food");
    assert_eq!(r.categories[0].amount_minor, "100000");
    assert_eq!(r.accounts.len(), 2);
    assert_eq!(r.accounts[0].row_count, 3);
    assert_eq!(r.accounts[1].row_count, 1);
}

#[test]
fn category_filters_count_only_selected_lines() {
    let (txs, lines) = data();
    let r = read_finance(&request(None, None, Some(vec!["food"])), &txs, &lines, dims(), "now".into()).unwrap();
    assert_eq!(r.summary.consumption_expense_minor, "100000");
    assert_eq!(r.summary.income_minor, "500000");
}

#[test]
fn empty_selections_give_zero_months() {
    let (txs, lines) = data();
    let r = read_finance(&request(None, Some(vec![]), None), &txs, &lines, dims(), "now".into()).unwrap();
    assert_eq!(r.state, "filter_empty");
    assert_eq!(r.monthly.len(), 3);
    assert_eq!(r.monthly[2].measures.income_minor, "0");
    let none = Dimensions { currencies: vec![], accounts: vec![], categories: vec![], instruments: vec![] };
    let r = read_finance(&request(None, None, None), &vec![], &vec![], none, "now".into()).unwrap();
    assert_eq!(r.state, "empty");
    assert!(r.monthly.is_empty());
}

fn drill(metric: DrillMetric, cursor: Option<&str>, limit: usize, categories: Option<Vec<&str>>) -> DrillRequest {
    DrillRequest {
        filters: request(None, None, categories),
        metric,
        month: None,
        cursor: cursor.map(str::to_string),
        limit,
    }
}

#[test]
fn canonical_activity_pagination_uses_a_stable_cursor() {
    let (txs, lines) = data();
    let page = read_drill_down(&drill(DrillMetric::Activity, None, 2, None), &txs, &lines, dims(), "now".into()).unwrap();
    let ids: Vec<&str> = page.rows.iter().map(|r| r.id.as_str()).collect();
    assert_eq!(ids, vec!["t1", "t2"]);
    assert_eq!(page.next_cursor.as_deref(), Some("2026-01-10|t2"));
    let next = read_drill_down(&drill(DrillMetric::Activity, Some("2026-01-10|t2"), 2, None), &txs, &lines, dims(), "now".into()).unwrap();
    let ids: Vec<&str> = next.rows.iter().map(|r| r.id.as_str()).collect();
    assert_eq!(ids, vec!["t3", "t4"]);
    assert_eq!(next.next_cursor, None);
    assert_eq!(read_drill_down(&drill(DrillMetric::Activity, None, 0, None), &txs, &lines, dims(), "now".into()).err(),
        Some(FinanceError::InvalidLimit));
    assert_eq!(read_drill_down(&drill(DrillMetric::Activity, Some("bad"), 2, None), &txs, &lines, dims(), "now".into()).err(),
        Some(FinanceError::InvalidCursor));
}

#[test]
fn category_drill_down_returns_matching_expense_lines_not_whole_transactions() {
    let (txs, lines) = data();
    let r = read_drill_down(&drill(DrillMetric::ConsumptionExpense, None, 10, Some(vec!["food"])), &txs, &lines, dims(),
        "now".into()).unwrap();
    assert_eq!(r.rows.len(), 2);
    assert_eq!(r.rows[0].row_type, "expense_line");
    assert_eq!(r.rows[0].id, "l1");
    assert_eq!(r.rows[0].amount_minor, "-70000");
    assert_eq!(r.rows[0].category_id.as_deref(), Some("food"));
    assert_eq!(r.metric, "consumption_expense");
}

#[test]
fn cursors_split_at_the_first_bar() {
    assert_eq!(parse_cursor("2026-01-10|t|2"), Some(("2026-01-10".to_string(), "t|2".to_string())));
    assert_eq!(parse_cursor("2026-01-10|"), None);
    assert_eq!(parse_cursor("2026-13-10|x"), None);
}

#[test]
fn drill_rows_sort_stably_by_date_and_id() {
    let row = |id: &str, date: &str, kind: &str| DrillRow {
        row_type: kind.into(),
        id: id.into(),
        canonical_transaction_id: id.into(),
        posted_date: date.into(),
        account_id: None,
        description: String::new(),
        transaction_kind: String::new(),
        category_id: None,
        amount_minor: "0".into(),
        currency: "COP".into(),
    };
    let rows = vec![row("b", "2026-01-02", "x"), row("a", "2026-01-02", "first"), row("a", "2026-01-02", "second"), row("z", "2026-01-01", "x")];
    let sorted = sort_drill_rows(&rows);
    let got: Vec<(&str, &str)> = sorted.iter().map(|r| (r.id.as_str(), r.row_type.as_str())).collect();
    assert_eq!(got, vec![("z", "x"), ("a", "first"), ("a", "second"), ("b", "x")]);
}

#[test]
fn month_and_account_tallies_add_up_to_the_summary() {
    let (txs, lines) = data();
    let r = read_finance(&request(None, None, None), &txs, &lines, dims(), "now".into()).unwrap();
    let total = |f: &dyn Fn(&tracky::finance::Measures) -> &String, items: Vec<&tracky::finance::Measures>| -> i64 {
        items.iter().map(|m| f(m).parse::<i64>().unwrap()).sum()
    };
    let months: Vec<_> = r.monthly.iter().map(|m| &m.measures).collect();
    let accounts: Vec<_> = r.accounts.iter().map(|a| &a.measures).collect();
    for items in [months, accounts] {
        assert_eq!(total(&|m| &m.income_minor, items.clone()), r.summary.income_minor.parse::<i64>().unwrap());
        assert_eq!(
            total(&|m| &m.consumption_expense_minor, items.clone()),
            r.summary.consumption_expense_minor.parse::<i64>().unwrap()
        );
        assert_eq!(
            total(&|m| &m.investment_contribution_minor, items.clone()),
            r.summary.investment_contribution_minor.parse::<i64>().unwrap()
        );
    }
}

#[test]
fn successive_pages_list_every_row_once_in_order() {
    let (txs, lines) = data();
    let mut cursor: Option<String> = None;
    let mut seen: Vec<String> = Vec::new();
    loop {
        let request = drill(DrillMetric::Activity, cursor.as_deref(), 1, None);
        let page = drill_snapshot(&request, &txs, &lines, dims().accounts, vec![], "now".into()).unwrap();
        assert!(page.rows.len() <= 1);
        seen.extend(page.rows.iter().map(|r| r.id.clone()));
        match page.next_cursor {
            Some(next) => {
                let last = page.rows.last().unwrap();
                assert_eq!(next, format!("{}|{}", last.posted_date, last.id));
                cursor = Some(next);
            }
            None => break,
        }
    }
    assert_eq!(seen, vec!["t1", "t2", "t3", "t4"]);
    let request = drill(DrillMetric::Activity, None, 101, None);
    assert_eq!(
        drill_snapshot(&request, &txs, &lines, dims().accounts, vec![], "now".into()).err(),
        Some(FinanceError::InvalidLimit)
    );
}

#[test]
fn dashboard_errors_read_as_the_dashboard_reports_them() {
    assert_eq!(FinanceError::InvalidLimit.message(), "dashboard drill-down limit must be between 1 and 100");
    assert_eq!(FinanceError::InvalidCursor.message(), "invalid dashboard cursor");
    assert_eq!(FinanceError::InvalidRange.message(), "dashboard start date must not follow end date");
    assert_eq!(FinanceError::UnavailableCurrency.message(), "requested currency is not available in this date range");
}
