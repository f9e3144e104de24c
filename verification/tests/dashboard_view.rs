use tracky::finance::{
    AccountBreakdown, AccountDimension, CategoryBreakdown, CategoryDimension, DashboardPosition, DashboardResponse,
    Dimensions, InvestmentSection, Measures, MonthlyMeasures, ResolvedFilters,
};
use tracky::view::{
    amount_cell, checked_attr, escape, paired, render_accounts, render_categories, render_currency, render_filters,
    render_header, render_monthly, render_position, render_summary, scope_names,
};

fn measures(income: &str, expense: &str) -> Measures {
    Measures {
        currency: Some("COP".to_string()),
        income_minor: income.to_string(),
        consumption_expense_minor: expense.to_string(),
        net_cash_flow_minor: "500".to_string(),
        investment_contribution_minor: "0".to_string(),
    }
}

fn snapshot() -> DashboardResponse {
    DashboardResponse {
        schema_version: "tracky.dashboard.v1".to_string(),
        ok: true,
        read_at: "2026-06-30T10:00:00Z".to_string(),
        state: "ready".to_string(),
        filters: ResolvedFilters {
            start_date: "2026-01-01".to_string(),
            end_date: "2026-03-31".to_string(),
            currency: Some("COP".to_string()),
            account_ids: vec!["cop-checking".to_string()],
            category_ids: vec![],
            category_scope: "all_expenses".to_string(),
        },
        dimensions: Dimensions {
            currencies: vec!["COP".to_string(), "USD".to_string()],
            accounts: vec![
                AccountDimension { id: "cop-checking".to_string(), name: "COP <Checking>".to_string(), currency: "COP".to_string() },
                AccountDimension { id: "usd".to_string(), name: "USD".to_string(), currency: "USD".to_string() },
            ],
            categories: vec![CategoryDimension {
                id: "food".to_string(),
                name: "Food & drink".to_string(),
                currencies: vec!["COP".to_string(), "USD".to_string()],
            }],
            instruments: vec![],
        },
        summary: measures("1000", "500"),
        monthly: vec![MonthlyMeasures { month: "2026-01".to_string(), measures: measures("1000", "500") }],
        categories: vec![],
        accounts: vec![AccountBreakdown {
            account_id: "cop-checking".to_string(),
            account_name: "COP Checking".to_string(),
            row_count: 3,
            measures: measures("1000", "500"),
        }],
        investments: InvestmentSection { flows: vec![], closing_positions: vec![] },
        alerts: vec![],
        errors: vec![],
    }
}

#[test]
fn escaping_replaces_markup_characters() {
    assert_eq!(escape("a<b>&\"c'"), "a&lt;b&gt;&amp;&quot;c&#39;");
    assert_eq!(escape("plain · text"), "plain · text");
    for s in ["<script>", "\"x\"", "it's", "&amp;"] {
        let e = escape(s);
        assert!(!e.contains('<') && !e.contains('>') && !e.contains('"') && !e.contains('\''));
    }
}

#[test]
fn scopes_name_selected_dimensions() {
    let dims = vec![("a".to_string(), "Alpha".to_string()), ("b".to_string(), "Beta".to_string())];
    assert_eq!(scope_names(&vec![], &dims, "None"), "None");
    assert_eq!(scope_names(&vec!["b".to_string(), "a".to_string()], &dims, "None"), "Alpha, Beta");
    assert_eq!(scope_names(&vec!["x".to_string(), "y".to_string()], &dims, "None"), "x, y");
}

#[test]
fn small_fragments() {
    assert_eq!(amount_cell("-70000", "COP"), "<td data-minor=\"-70000\">-70000 COP</td>");
    assert_eq!(checked_attr(true), "checked");
    assert_eq!(checked_attr(false), "");
    assert_eq!(paired(&Some("10".to_string()), &Some("USD".to_string())), "10 USD");
    assert_eq!(paired(&Some("10".to_string()), &None), "Unavailable");
}

#[test]
fn sections_render_escaped_values() {
    let s = snapshot();
    let mut html = String::new();
    render_header(&mut html, &s);
    assert!(html.contains("<time>2026-01-01</time> through <time>2026-03-31</time> · Accounts: COP &lt;Checking&gt; · Expense categories: No expense categories selected · read 2026-06-30T10:00:00Z"));
    let mut html = String::new();
    render_currency(&mut html, &s);
    assert!(html.contains("<button type=\"button\" data-currency=\"COP\" aria-pressed=\"true\">COP</button>"));
    assert!(html.contains("<button type=\"button\" data-currency=\"USD\" aria-pressed=\"false\">USD</button>"));
    let mut html = String::new();
    render_filters(&mut html, &s);
    assert!(html.contains("value=\"cop-checking\" checked> COP &lt;Checking&gt; <small>COP</small>"));
    assert!(html.contains("<label data-compatible-currency=\"COP USD\"><input name=\"category\" type=\"checkbox\" value=\"food\" > Food &amp; drink</label>"));
    let mut html = String::new();
    render_summary(&mut html, &s.summary, "COP");
    assert!(html.contains("data-metric=\"income\"><span>Income</span><strong data-minor=\"1000\">1000 COP</strong><small>Canonical inflows</small>"));
    let mut html = String::new();
    render_monthly(&mut html, &s, "COP");
    assert!(html.contains("data-month=\"2026-01\"><span>2026-01</span>"));
    assert!(html.contains("<tr><th scope=\"row\">2026-01</th><td data-minor=\"1000\">1000 COP</td>"));
    let mut html = String::new();
    render_categories(&mut html, &s, "COP");
    assert!(html.contains("<li class=\"empty-row\">No expense categories in this scope.</li>"));
    let mut html = String::new();
    render_accounts(&mut html, &s, "COP");
    assert!(html.contains("COP Checking<small>3 canonical rows</small>"));
    assert!(!html.contains("empty-row"));
}

#[test]
fn positions_fall_back_to_ids_and_unavailable() {
    let p = DashboardPosition {
        account_id: "broker".to_string(),
        instrument_id: Some("ins-1".to_string()),
        instrument_type: None,
        quantity: None,
        historical_cost_minor: Some("100".to_string()),
        cost_currency: Some("COP".to_string()),
        observed_value_minor: None,
        valuation_currency: None,
        effective_date: None,
        observed_at: None,
        age_days: None,
        freshness: "stale".to_string(),
        reconciliation_status: "unreconciled".to_string(),
        quantity_difference: None,
        value_difference_minor: None,
    };
    let mut html = String::new();
    render_position(&mut html, 2, None, &p);
    assert_eq!(
        html,
        "<tr><th scope=\"row\"><button type=\"button\" data-action=\"open-drawer\" data-detail=\"position\" data-index=\"2\" data-metric=\"investment_contribution\" data-account=\"broker\" data-instrument=\"ins-1\">ins-1<small>broker</small></button></th><td>Unavailable</td><td>100 COP</td><td>Unavailable</td><td>Unavailable</td><td><span class=\"status status-stale\">stale</span></td><td>unreconciled</td></tr>"
    );
    let mut named = String::new();
    render_position(&mut named, 0, Some("Fund"), &p);
    assert!(named.contains(">Fund<small>broker</small>"));
}
