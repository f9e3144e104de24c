//! The dashboard page: HTML fragments rendered from a dashboard snapshot,
//! with every value escaped.
use vstd::prelude::*;
use crate::dashboard::{opt_view, strings_view};
use crate::finance::{
    AccountBreakdown, AccountDimension, CategoryBreakdown, CategoryDimension, DashboardPosition, DashboardResponse,
    Measures, MonthlyMeasures,
};
use crate::review::owned;
use crate::text::{nat_digits, format_u128, push_char, push_str, str_eq, to_chars};

verus! {

/// The HTML text standing for one character: the five characters with a
/// meaning in markup become entities.
pub open spec fn escaped_char(c: char) -> Seq<char> {
    if c == '&' {
        "&amp;"@
    } else if c == '<' {
        "&lt;"@
    } else if c == '>' {
        "&gt;"@
    } else if c == '"' {
        "&quot;"@
    } else if c == '\'' {
        "&#39;"@
    } else {
        seq![c]
    }
}

/// `s` escaped for HTML text and attribute values.
pub open spec fn escaped(s: Seq<char>) -> Seq<char>
    decreases s.len(),
{
    if s.len() == 0 {
        Seq::empty()
    } else {
        escaped(s.drop_last()) + escaped_char(s.last())
    }
}

/// A character that can open or close markup or an attribute value.
pub open spec fn is_markup(c: char) -> bool {
    c == '<' || c == '>' || c == '"' || c == '\''
}

/// Escapes `value` for HTML (see `escaped`).
pub fn escape(value: &str) -> (r: String)
    ensures
        r@ == escaped(value@),
{
    let v = to_chars(value);
    let mut out = String::new();
    let mut i: usize = 0;
    while i < v.len()
        invariant
            i <= v.len(),
            v@ == value@,
            out@ == escaped(value@.subrange(0, i as int)),
        decreases v.len() - i,
    {
        let c = v[i];
        let ghost next = value@.subrange(0, i + 1);
        assert(next.drop_last() =~= value@.subrange(0, i as int));
        assert(next.last() == c);
        if c == '&' {
            push_str(&mut out, "&amp;");
        } else if c == '<' {
            push_str(&mut out, "&lt;");
        } else if c == '>' {
            push_str(&mut out, "&gt;");
        } else if c == '"' {
            push_str(&mut out, "&quot;");
        } else if c == '\'' {
            push_str(&mut out, "&#39;");
        } else {
            push_char(&mut out, c);
            assert(out@ =~= escaped(value@.subrange(0, i as int)) + seq![c]);
        }
        i = i + 1;
    }
    assert(value@.subrange(0, v.len() as int) =~= value@);
    out
}

/// No escaped text holds a character that opens or closes markup or an
/// attribute value: whatever a value holds, it cannot leave the element or
/// attribute it is written in.
pub proof fn law_escaped_text_has_no_markup(s: Seq<char>)
    ensures
        forall|i: int| 0 <= i < escaped(s).len() ==> !is_markup(#[trigger] escaped(s)[i]),
    decreases s.len(),
{
    reveal_strlit("&amp;");
    reveal_strlit("&lt;");
    reveal_strlit("&gt;");
    reveal_strlit("&quot;");
    reveal_strlit("&#39;");
    if s.len() > 0 {
        law_escaped_text_has_no_markup(s.drop_last());
        let a = escaped(s.drop_last());
        let b = escaped_char(s.last());
        assert forall|i: int| 0 <= i < escaped(s).len() implies !is_markup(#[trigger] escaped(s)[i]) by {
            if i < a.len() {
                assert(escaped(s)[i] == a[i]);
            } else {
                assert(escaped(s)[i] == b[i - a.len()]);
            }
        }
    }
}

/// Text that holds no markup character is written unchanged, but for `&`.
pub proof fn law_plain_text_is_kept(s: Seq<char>)
    requires
        forall|i: int| 0 <= i < s.len() ==> !is_markup(#[trigger] s[i]) && s[i] != '&',
    ensures
        escaped(s) == s,
    decreases s.len(),
{
    if s.len() > 0 {
        assert(s.drop_last().len() == s.len() - 1);
        assert forall|i: int| 0 <= i < s.drop_last().len() implies !is_markup(#[trigger] s.drop_last()[i]) && s.drop_last()[i] != '&' by {
            assert(s.drop_last()[i] == s[i]);
        }
        law_plain_text_is_kept(s.drop_last());
        assert(!is_markup(s[s.len() - 1]) && s[s.len() - 1] != '&');
        assert(escaped(s) =~= s.drop_last() + seq![s.last()]);
        assert(s.drop_last() + seq![s.last()] =~= s);
    }
}

/// One summary measure: a button opening its drill-down.
pub open spec fn summary_item_html(label: Seq<char>, metric: Seq<char>, value: Seq<char>, currency: Seq<char>, note: Seq<char>) -> Seq<char> {
    "<li><button type=\"button\" data-action=\"open-drawer\" data-metric=\""@
        + metric
        + "\"><span>"@
        + label
        + "</span><strong data-minor=\""@
        + escaped(value)
        + "\">"@
        + escaped(value)
        + " "@
        + escaped(currency)
        + "</strong><small>"@
        + note
        + "</small></button></li>"@
}

fn summary_item(html: &mut String, label: &str, metric: &str, value: &str, currency: &str, note: &str)
    ensures
        final(html)@ == old(html)@ + summary_item_html(label@, metric@, value@, currency@, note@),
{
    let ghost start = html@;
    push_str(html, "<li><button type=\"button\" data-action=\"open-drawer\" data-metric=\"");
    push_str(html, metric);
    push_str(html, "\"><span>");
    push_str(html, label);
    push_str(html, "</span><strong data-minor=\"");
    { let t = escape(value); push_str(html, t.as_str()); }
    push_str(html, "\">");
    { let t = escape(value); push_str(html, t.as_str()); }
    push_str(html, " ");
    { let t = escape(currency); push_str(html, t.as_str()); }
    push_str(html, "</strong><small>");
    push_str(html, note);
    push_str(html, "</small></button></li>");
    assert(html@ =~= start + summary_item_html(label@, metric@, value@, currency@, note@));
}

/// The summary section: the four measures in `currency`.
pub open spec fn summary_html(m: Measures, currency: Seq<char>) -> Seq<char> {
    "<section data-region=\"summary\" aria-labelledby=\"summary-heading\"><div class=\"section-heading\"><p class=\"eyebrow\">Opening position</p><h2 id=\"summary-heading\">Four measures, one currency</h2></div><ul class=\"summary-grid\">"@
        + summary_item_html("Income"@, "income"@, m.income_minor@, currency, "Canonical inflows"@)
        + summary_item_html("Consumption expense"@, "consumption_expense"@, m.consumption_expense_minor@, currency, "Consumption only"@)
        + summary_item_html("Savings / net cash flow"@, "net_cash_flow"@, m.net_cash_flow_minor@, currency, "Income minus consumption expense"@)
        + summary_item_html("Investment contributions"@, "investment_contribution"@, m.investment_contribution_minor@, currency, "Separate from expense"@)
        + "</ul></section>"@
}

/// Appends the summary section.
pub fn render_summary(html: &mut String, m: &Measures, currency: &str)
    ensures
        final(html)@ == old(html)@ + summary_html(*m, currency@),
{
    let ghost start = html@;
    push_str(html, "<section data-region=\"summary\" aria-labelledby=\"summary-heading\"><div class=\"section-heading\"><p class=\"eyebrow\">Opening position</p><h2 id=\"summary-heading\">Four measures, one currency</h2></div><ul class=\"summary-grid\">");
    summary_item(html, "Income", "income", m.income_minor.as_str(), currency, "Canonical inflows");
    summary_item(html, "Consumption expense", "consumption_expense", m.consumption_expense_minor.as_str(), currency, "Consumption only");
    summary_item(html, "Savings / net cash flow", "net_cash_flow", m.net_cash_flow_minor.as_str(), currency, "Income minus consumption expense");
    summary_item(html, "Investment contributions", "investment_contribution", m.investment_contribution_minor.as_str(), currency, "Separate from expense");
    push_str(html, "</ul></section>");
    assert(html@ =~= start + summary_html(*m, currency@));
}

/// A table cell with an exact amount.
pub open spec fn amount_cell_html(value: Seq<char>, currency: Seq<char>) -> Seq<char> {
    "<td data-minor=\""@ + escaped(value) + "\">"@ + escaped(value) + " "@ + escaped(currency) + "</td>"@
}

/// A table cell with an exact amount.
pub fn amount_cell(value: &str, currency: &str) -> (r: String)
    ensures
        r@ == amount_cell_html(value@, currency@),
{
    let mut out = String::new();
    let html = &mut out;
    push_str(html, "<td data-minor=\"");
    { let t = escape(value); push_str(html, t.as_str()); }
    push_str(html, "\">");
    { let t = escape(value); push_str(html, t.as_str()); }
    push_str(html, " ");
    { let t = escape(currency); push_str(html, t.as_str()); }
    push_str(html, "</td>");
    assert(out@ =~= amount_cell_html(value@, currency@));
    out
}

/// A month in the trend chart.
pub open spec fn trend_button_html(x: MonthlyMeasures, currency: Seq<char>) -> Seq<char> {
    "<button type=\"button\" data-action=\"open-drawer\" data-metric=\"activity\" data-month=\""@
        + escaped(x.month@)
        + "\"><span>"@
        + escaped(x.month@)
        + "</span><span class=\"trend-income\">Income <b>"@
        + escaped(x.measures.income_minor@)
        + " "@
        + escaped(currency)
        + "</b></span><span class=\"trend-expense\">Expense <b>"@
        + escaped(x.measures.consumption_expense_minor@)
        + " "@
        + escaped(currency)
        + "</b></span></button>"@
}

fn trend_button(html: &mut String, x: &MonthlyMeasures, currency: &str)
    ensures
        final(html)@ == old(html)@ + trend_button_html(*x, currency@),
{
    let ghost start = html@;
    push_str(html, "<button type=\"button\" data-action=\"open-drawer\" data-metric=\"activity\" data-month=\"");
    { let t = escape(x.month.as_str()); push_str(html, t.as_str()); }
    push_str(html, "\"><span>");
    { let t = escape(x.month.as_str()); push_str(html, t.as_str()); }
    push_str(html, "</span><span class=\"trend-income\">Income <b>");
    { let t = escape(x.measures.income_minor.as_str()); push_str(html, t.as_str()); }
    push_str(html, " ");
    { let t = escape(currency); push_str(html, t.as_str()); }
    push_str(html, "</b></span><span class=\"trend-expense\">Expense <b>");
    { let t = escape(x.measures.consumption_expense_minor.as_str()); push_str(html, t.as_str()); }
    push_str(html, " ");
    { let t = escape(currency); push_str(html, t.as_str()); }
    push_str(html, "</b></span></button>");
    assert(html@ =~= start + trend_button_html(*x, currency@));
}

/// A month in the exact table.
pub open spec fn month_row_html(x: MonthlyMeasures, currency: Seq<char>) -> Seq<char> {
    "<tr><th scope=\"row\">"@
        + escaped(x.month@)
        + "</th>"@
        + amount_cell_html(x.measures.income_minor@, currency)
        + amount_cell_html(x.measures.consumption_expense_minor@, currency)
        + amount_cell_html(x.measures.net_cash_flow_minor@, currency)
        + amount_cell_html(x.measures.investment_contribution_minor@, currency)
        + "</tr>"@
}

fn month_row(html: &mut String, x: &MonthlyMeasures, currency: &str)
    ensures
        final(html)@ == old(html)@ + month_row_html(*x, currency@),
{
    let ghost start = html@;
    push_str(html, "<tr><th scope=\"row\">");
    { let t = escape(x.month.as_str()); push_str(html, t.as_str()); }
    push_str(html, "</th>");
    { let c = amount_cell(x.measures.income_minor.as_str(), currency); push_str(html, c.as_str()); }
    { let c = amount_cell(x.measures.consumption_expense_minor.as_str(), currency); push_str(html, c.as_str()); }
    { let c = amount_cell(x.measures.net_cash_flow_minor.as_str(), currency); push_str(html, c.as_str()); }
    { let c = amount_cell(x.measures.investment_contribution_minor.as_str(), currency); push_str(html, c.as_str()); }
    push_str(html, "</tr>");
    assert(html@ =~= start + month_row_html(*x, currency@));
}

/// The trend chart buttons.
pub open spec fn trend_buttons_html(xs: Seq<MonthlyMeasures>, currency: Seq<char>) -> Seq<char>
    decreases xs.len(),
{
    if xs.len() == 0 {
        Seq::empty()
    } else {
        trend_buttons_html(xs.drop_last(), currency) + trend_button_html(xs.last(), currency)
    }
}

/// The exact table rows.
pub open spec fn month_rows_html(xs: Seq<MonthlyMeasures>, currency: Seq<char>) -> Seq<char>
    decreases xs.len(),
{
    if xs.len() == 0 {
        Seq::empty()
    } else {
        month_rows_html(xs.drop_last(), currency) + month_row_html(xs.last(), currency)
    }
}

/// The monthly section: a trend chart and an exact table, in `currency`.
pub open spec fn monthly_html(months: Seq<MonthlyMeasures>, currency: Seq<char>) -> Seq<char> {
    "<section data-region=\"monthly\" aria-labelledby=\"monthly-heading\"><div class=\"section-heading\"><p class=\"eyebrow\">Flow over time</p><h2 id=\"monthly-heading\">Monthly activity</h2><p id=\"trend-description\" class=\"visually-hidden\">Each month shows exact income and consumption expense amounts. The exact table follows the chart.</p></div><div class=\"trend\" role=\"group\" aria-label=\"Monthly income and consumption expense trend\" aria-describedby=\"trend-description\">"@ + trend_buttons_html(months, currency) + "</div><div class=\"table-scroll\" tabindex=\"0\" role=\"region\" aria-label=\"Exact monthly amounts by month and currency; horizontally scrollable when needed\"><table><caption>Exact monthly amounts in minor units</caption><thead><tr><th scope=\"col\">Month</th><th scope=\"col\">Income</th><th scope=\"col\">Consumption expense</th><th scope=\"col\">Savings</th><th scope=\"col\">Investment contributions</th></tr></thead><tbody>"@ + month_rows_html(months, currency)
        + "</tbody></table></div></section>"@
}

/// Appends the monthly section.
pub fn render_monthly(html: &mut String, snapshot: &DashboardResponse, currency: &str)
    ensures
        final(html)@ == old(html)@ + monthly_html(snapshot.monthly@, currency@),
{
    let ghost start = html@;
    push_str(html, "<section data-region=\"monthly\" aria-labelledby=\"monthly-heading\"><div class=\"section-heading\"><p class=\"eyebrow\">Flow over time</p><h2 id=\"monthly-heading\">Monthly activity</h2><p id=\"trend-description\" class=\"visually-hidden\">Each month shows exact income and consumption expense amounts. The exact table follows the chart.</p></div><div class=\"trend\" role=\"group\" aria-label=\"Monthly income and consumption expense trend\" aria-describedby=\"trend-description\">");
    {
        let xs = &snapshot.monthly;
        let ghost before = html@;
        let mut i: usize = 0;
        assert(xs@.subrange(0, 0) =~= Seq::<_>::empty());
        while i < xs.len()
            invariant
                i <= xs.len(),
                html@ == before + trend_buttons_html(xs@.subrange(0, i as int), currency@),
            decreases xs.len() - i,
        {
            let x = &xs[i];
            let ghost next = xs@.subrange(0, i + 1);
            assert(next.drop_last() =~= xs@.subrange(0, i as int));
            assert(next.last() == *x);
            let ghost mid = html@;
            trend_button(html, x, currency);
            assert(html@ =~= before + trend_buttons_html(next, currency@));
            i = i + 1;
        }
        assert(xs@.subrange(0, xs.len() as int) =~= xs@);
    }
    let ghost after_trend = html@;
    push_str(html, "</div><div class=\"table-scroll\" tabindex=\"0\" role=\"region\" aria-label=\"Exact monthly amounts by month and currency; horizontally scrollable when needed\"><table><caption>Exact monthly amounts in minor units</caption><thead><tr><th scope=\"col\">Month</th><th scope=\"col\">Income</th><th scope=\"col\">Consumption expense</th><th scope=\"col\">Savings</th><th scope=\"col\">Investment contributions</th></tr></thead><tbody>");
    {
        let xs = &snapshot.monthly;
        let ghost before = html@;
        let mut i: usize = 0;
        assert(xs@.subrange(0, 0) =~= Seq::<_>::empty());
        while i < xs.len()
            invariant
                i <= xs.len(),
                html@ == before + month_rows_html(xs@.subrange(0, i as int), currency@),
            decreases xs.len() - i,
        {
            let x = &xs[i];
            let ghost next = xs@.subrange(0, i + 1);
            assert(next.drop_last() =~= xs@.subrange(0, i as int));
            assert(next.last() == *x);
            let ghost mid = html@;
            month_row(html, x, currency);
            assert(html@ =~= before + month_rows_html(next, currency@));
            i = i + 1;
        }
        assert(xs@.subrange(0, xs.len() as int) =~= xs@);
    }
    push_str(html, "</tbody></table></div></section>");
    assert(html@ =~= start + monthly_html(snapshot.monthly@, currency@));
}

/// A placeholder row for an empty list.
pub open spec fn empty_list_html(empty: bool, message: Seq<char>) -> Seq<char> {
    if empty {
        "<li class=\"empty-row\">"@ + escaped(message) + "</li>"@
    } else {
        Seq::empty()
    }
}

fn empty_list(html: &mut String, empty: bool, message: &str)
    ensures
        final(html)@ == old(html)@ + empty_list_html(empty, message@),
{
    let ghost start = html@;
    if empty {
        push_str(html, "<li class=\"empty-row\">");
        let t = escape(message);
        push_str(html, t.as_str());
        push_str(html, "</li>");
        assert(html@ =~= start + empty_list_html(empty, message@));
    } else {
        assert(html@ =~= start + empty_list_html(empty, message@));
    }
}

/// One expense category.
pub open spec fn category_item_html(x: CategoryBreakdown, currency: Seq<char>) -> Seq<char> {
    "<li><button type=\"button\" data-action=\"open-drawer\" data-metric=\"consumption_expense\" data-category=\""@
        + escaped(x.category_id@)
        + "\"><span>"@
        + escaped(x.category_name@)
        + "</span><strong data-minor=\""@
        + escaped(x.amount_minor@)
        + "\">"@
        + escaped(x.amount_minor@)
        + " "@
        + escaped(currency)
        + "</strong></button></li>"@
}

fn category_item(html: &mut String, x: &CategoryBreakdown, currency: &str)
    ensures
        final(html)@ == old(html)@ + category_item_html(*x, currency@),
{
    let ghost start = html@;
    push_str(html, "<li><button type=\"button\" data-action=\"open-drawer\" data-metric=\"consumption_expense\" data-category=\"");
    { let t = escape(x.category_id.as_str()); push_str(html, t.as_str()); }
    push_str(html, "\"><span>");
    { let t = escape(x.category_name.as_str()); push_str(html, t.as_str()); }
    push_str(html, "</span><strong data-minor=\"");
    { let t = escape(x.amount_minor.as_str()); push_str(html, t.as_str()); }
    push_str(html, "\">");
    { let t = escape(x.amount_minor.as_str()); push_str(html, t.as_str()); }
    push_str(html, " ");
    { let t = escape(currency); push_str(html, t.as_str()); }
    push_str(html, "</strong></button></li>");
    assert(html@ =~= start + category_item_html(*x, currency@));
}

/// The expense category items.
pub open spec fn category_items_html(xs: Seq<CategoryBreakdown>, currency: Seq<char>) -> Seq<char>
    decreases xs.len(),
{
    if xs.len() == 0 {
        Seq::empty()
    } else {
        category_items_html(xs.drop_last(), currency) + category_item_html(xs.last(), currency)
    }
}

/// The expense categories section, in `currency`.
pub open spec fn categories_html(cats: Seq<CategoryBreakdown>, currency: Seq<char>) -> Seq<char> {
    "<section data-region=\"categories\" aria-labelledby=\"categories-heading\"><div class=\"section-heading\"><p class=\"eyebrow\">Consumption map</p><h2 id=\"categories-heading\">Expense categories</h2></div><ul class=\"breakdown-list\">"@ + category_items_html(cats, currency) + empty_list_html(
        cats.len() == 0,
        "No expense categories in this scope."@,
    ) + "</ul></section>"@
}

/// Appends the expense categories section.
pub fn render_categories(html: &mut String, snapshot: &DashboardResponse, currency: &str)
    ensures
        final(html)@ == old(html)@ + categories_html(snapshot.categories@, currency@),
{
    let ghost start = html@;
    push_str(html, "<section data-region=\"categories\" aria-labelledby=\"categories-heading\"><div class=\"section-heading\"><p class=\"eyebrow\">Consumption map</p><h2 id=\"categories-heading\">Expense categories</h2></div><ul class=\"breakdown-list\">");
    {
        let xs = &snapshot.categories;
        let ghost before = html@;
        let mut i: usize = 0;
        assert(xs@.subrange(0, 0) =~= Seq::<_>::empty());
        while i < xs.len()
            invariant
                i <= xs.len(),
                html@ == before + category_items_html(xs@.subrange(0, i as int), currency@),
            decreases xs.len() - i,
        {
            let x = &xs[i];
            let ghost next = xs@.subrange(0, i + 1);
            assert(next.drop_last() =~= xs@.subrange(0, i as int));
            assert(next.last() == *x);
            let ghost mid = html@;
            category_item(html, x, currency);
            assert(html@ =~= before + category_items_html(next, currency@));
            i = i + 1;
        }
        assert(xs@.subrange(0, xs.len() as int) =~= xs@);
    }
    empty_list(html, snapshot.categories.len() == 0, "No expense categories in this scope.");
    push_str(html, "</ul></section>");
    assert(html@ =~= start + categories_html(snapshot.categories@, currency@));
}

/// One account with its net cash flow.
pub open spec fn account_item_html(x: AccountBreakdown, currency: Seq<char>) -> Seq<char> {
    "<li><button type=\"button\" data-action=\"open-drawer\" data-metric=\"activity\" data-account=\""@
        + escaped(x.account_id@)
        + "\"><span>"@
        + escaped(x.account_name@)
        + "<small>"@
        + nat_digits(x.row_count as nat)
        + " canonical rows</small></span><strong data-minor=\""@
        + escaped(x.measures.net_cash_flow_minor@)
        + "\">"@
        + escaped(x.measures.net_cash_flow_minor@)
        + " "@
        + escaped(currency)
        + "</strong></button></li>"@
}

fn account_item(html: &mut String, x: &AccountBreakdown, currency: &str)
    ensures
        final(html)@ == old(html)@ + account_item_html(*x, currency@),
{
    let ghost start = html@;
    push_str(html, "<li><button type=\"button\" data-action=\"open-drawer\" data-metric=\"activity\" data-account=\"");
    { let t = escape(x.account_id.as_str()); push_str(html, t.as_str()); }
    push_str(html, "\"><span>");
    { let t = escape(x.account_name.as_str()); push_str(html, t.as_str()); }
    push_str(html, "<small>");
    { let t = format_u128(x.row_count as u128); push_str(html, t.as_str()); }
    push_str(html, " canonical rows</small></span><strong data-minor=\"");
    { let t = escape(x.measures.net_cash_flow_minor.as_str()); push_str(html, t.as_str()); }
    push_str(html, "\">");
    { let t = escape(x.measures.net_cash_flow_minor.as_str()); push_str(html, t.as_str()); }
    push_str(html, " ");
    { let t = escape(currency); push_str(html, t.as_str()); }
    push_str(html, "</strong></button></li>");
    assert(html@ =~= start + account_item_html(*x, currency@));
}

/// The account items.
pub open spec fn account_items_html(xs: Seq<AccountBreakdown>, currency: Seq<char>) -> Seq<char>
    decreases xs.len(),
{
    if xs.len() == 0 {
        Seq::empty()
    } else {
        account_items_html(xs.drop_last(), currency) + account_item_html(xs.last(), currency)
    }
}

/// The accounts section, in `currency`.
pub open spec fn accounts_html(accounts: Seq<AccountBreakdown>, currency: Seq<char>) -> Seq<char> {
    "<section data-region=\"accounts\" aria-labelledby=\"accounts-heading\"><div class=\"section-heading\"><p class=\"eyebrow\">Source activity</p><h2 id=\"accounts-heading\">Accounts</h2></div><ul class=\"breakdown-list\">"@ + account_items_html(accounts, currency) + empty_list_html(
        accounts.len() == 0,
        "No account activity in this scope."@,
    ) + "</ul></section>"@
}

/// Appends the accounts section.
pub fn render_accounts(html: &mut String, snapshot: &DashboardResponse, currency: &str)
    ensures
        final(html)@ == old(html)@ + accounts_html(snapshot.accounts@, currency@),
{
    let ghost start = html@;
    push_str(html, "<section data-region=\"accounts\" aria-labelledby=\"accounts-heading\"><div class=\"section-heading\"><p class=\"eyebrow\">Source activity</p><h2 id=\"accounts-heading\">Accounts</h2></div><ul class=\"breakdown-list\">");
    {
        let xs = &snapshot.accounts;
        let ghost before = html@;
        let mut i: usize = 0;
        assert(xs@.subrange(0, 0) =~= Seq::<_>::empty());
        while i < xs.len()
            invariant
                i <= xs.len(),
                html@ == before + account_items_html(xs@.subrange(0, i as int), currency@),
            decreases xs.len() - i,
        {
            let x = &xs[i];
            let ghost next = xs@.subrange(0, i + 1);
            assert(next.drop_last() =~= xs@.subrange(0, i as int));
            assert(next.last() == *x);
            let ghost mid = html@;
            account_item(html, x, currency);
            assert(html@ =~= before + account_items_html(next, currency@));
            i = i + 1;
        }
        assert(xs@.subrange(0, xs.len() as int) =~= xs@);
    }
    empty_list(html, snapshot.accounts.len() == 0, "No account activity in this scope.");
    push_str(html, "</ul></section>");
    assert(html@ =~= start + accounts_html(snapshot.accounts@, currency@));
}

/// `ws` joined by `sep`.
pub open spec fn texts_joined(ws: Seq<Seq<char>>, sep: Seq<char>) -> Seq<char>
    decreases ws.len(),
{
    if ws.len() == 0 {
        Seq::empty()
    } else if ws.len() == 1 {
        ws[0]
    } else {
        texts_joined(ws.drop_last(), sep) + sep + ws.last()
    }
}

/// The strings of `v` joined by `sep` (`[String]::join`).
fn join_texts(v: &Vec<String>, sep: &str) -> (r: String)
    ensures
        r@ == texts_joined(strings_view(v@), sep@),
{
    let mut out = String::new();
    let mut i: usize = 0;
    assert(strings_view(v@).subrange(0, 0) =~= Seq::<Seq<char>>::empty());
    while i < v.len()
        invariant
            i <= v.len(),
            out@ == texts_joined(strings_view(v@).subrange(0, i as int), sep@),
        decreases v.len() - i,
    {
        let ghost next = strings_view(v@).subrange(0, i + 1);
        assert(next.drop_last() =~= strings_view(v@).subrange(0, i as int));
        assert(next.last() == v@[i as int]@);
        if i > 0 {
            push_str(&mut out, sep);
        }
        push_str(&mut out, v[i].as_str());
        proof {
            if i == 0 {
                assert(out@ =~= next[0]);
            } else {
                assert(out@ =~= texts_joined(next.drop_last(), sep@) + sep@ + next.last());
            }
        }
        i = i + 1;
    }
    assert(strings_view(v@).subrange(0, v.len() as int) =~= strings_view(v@));
    out
}

/// Whether `v` holds the text `t`.
fn holds_text(v: &Vec<String>, t: &str) -> (r: bool)
    ensures
        r == strings_view(v@).contains(t@),
{
    let mut i: usize = 0;
    while i < v.len()
        invariant
            i <= v.len(),
            forall|j: int| 0 <= j < i ==> v@[j]@ != t@,
        decreases v.len() - i,
    {
        if str_eq(v[i].as_str(), t) {
            assert(strings_view(v@)[i as int] == t@);
            return true;
        }
        i = i + 1;
    }
    assert forall|j: int| 0 <= j < strings_view(v@).len() implies strings_view(v@)[j] != t@ by {
        assert(strings_view(v@)[j] == v@[j]@);
    }
    false
}

/// The `checked` attribute of a selected checkbox.
pub open spec fn checked_attr_text(checked: bool) -> Seq<char> {
    if checked {
        "checked"@
    } else {
        ""@
    }
}

/// The `checked` attribute of a checkbox, empty when it is not selected.
pub fn checked_attr(checked: bool) -> (r: &'static str)
    ensures
        r@ == checked_attr_text(checked),
{
    if checked {
        "checked"
    } else {
        ""
    }
}

/// An amount with its currency, or `Unavailable` unless both are known.
pub open spec fn paired_text(value: Option<Seq<char>>, currency: Option<Seq<char>>) -> Seq<char> {
    match (value, currency) {
        (Some(v), Some(c)) => v + " "@ + c,
        _ => "Unavailable"@,
    }
}

/// An amount with its currency (see `paired_text`).
pub fn paired(value: &Option<String>, currency: &Option<String>) -> (r: String)
    ensures
        r@ == paired_text(opt_view(*value), opt_view(*currency)),
{
    match (value, currency) {
        (Some(v), Some(c)) => {
            let mut out = v.clone();
            push_str(&mut out, " ");
            push_str(&mut out, c.as_str());
            out
        },
        _ => owned("Unavailable"),
    }
}

/// A known text, or `Unavailable`.
pub open spec fn or_unavailable(o: Option<Seq<char>>) -> Seq<char> {
    match o {
        Some(t) => t,
        None => "Unavailable"@,
    }
}

/// The names of the dimensions whose ids are selected, in dimension order.
pub open spec fn chosen_names(selected: Seq<Seq<char>>, dims: Seq<(Seq<char>, Seq<char>)>) -> Seq<Seq<char>>
    decreases dims.len(),
{
    if dims.len() == 0 {
        Seq::empty()
    } else {
        let before = chosen_names(selected, dims.drop_last());
        if selected.contains(dims.last().0) {
            before.push(dims.last().1)
        } else {
            before
        }
    }
}

/// How a selection is described: `empty` when nothing is selected, else
/// the names of the selected dimensions, or the selected ids themselves
/// when none of them names a known dimension; joined by `, `.
pub open spec fn scope_text(selected: Seq<Seq<char>>, dims: Seq<(Seq<char>, Seq<char>)>, empty: Seq<char>) -> Seq<char> {
    if selected.len() == 0 {
        empty
    } else {
        let names = chosen_names(selected, dims);
        if names.len() == 0 {
            texts_joined(selected, ", "@)
        } else {
            texts_joined(names, ", "@)
        }
    }
}

/// The ids and names of account dimensions.
pub open spec fn account_pairs_view(v: Seq<AccountDimension>) -> Seq<(Seq<char>, Seq<char>)> {
    v.map_values(|a: AccountDimension| (a.id@, a.name@))
}

/// The ids and names of category dimensions.
pub open spec fn category_pairs_view(v: Seq<CategoryDimension>) -> Seq<(Seq<char>, Seq<char>)> {
    v.map_values(|c: CategoryDimension| (c.id@, c.name@))
}

pub open spec fn pairs_text_view(v: Seq<(String, String)>) -> Seq<(Seq<char>, Seq<char>)> {
    v.map_values(|p: (String, String)| (p.0@, p.1@))
}

fn account_pairs(v: &Vec<AccountDimension>) -> (r: Vec<(String, String)>)
    ensures
        pairs_text_view(r@) == account_pairs_view(v@),
{
    let mut out: Vec<(String, String)> = Vec::new();
    let mut i: usize = 0;
    while i < v.len()
        invariant
            i <= v.len(),
            pairs_text_view(out@) == account_pairs_view(v@.subrange(0, i as int)),
        decreases v.len() - i,
    {
        let id = v[i].id.clone();
        let name = v[i].name.clone();
        let ghost before = out@;
        out.push((id, name));
        proof {
            assert(v@.subrange(0, i + 1) =~= v@.subrange(0, i as int).push(v@[i as int]));
            assert(pairs_text_view(out@) =~= pairs_text_view(before).push((id@, name@)));
            assert(account_pairs_view(v@.subrange(0, i + 1)) =~= account_pairs_view(v@.subrange(0, i as int)).push(
                (v@[i as int].id@, v@[i as int].name@),
            ));
        }
        i = i + 1;
    }
    assert(v@.subrange(0, v.len() as int) =~= v@);
    out
}

fn category_pairs(v: &Vec<CategoryDimension>) -> (r: Vec<(String, String)>)
    ensures
        pairs_text_view(r@) == category_pairs_view(v@),
{
    let mut out: Vec<(String, String)> = Vec::new();
    let mut i: usize = 0;
    while i < v.len()
        invariant
            i <= v.len(),
            pairs_text_view(out@) == category_pairs_view(v@.subrange(0, i as int)),
        decreases v.len() - i,
    {
        let id = v[i].id.clone();
        let name = v[i].name.clone();
        let ghost before = out@;
        out.push((id, name));
        proof {
            assert(v@.subrange(0, i + 1) =~= v@.subrange(0, i as int).push(v@[i as int]));
            assert(pairs_text_view(out@) =~= pairs_text_view(before).push((id@, name@)));
            assert(category_pairs_view(v@.subrange(0, i + 1)) =~= category_pairs_view(v@.subrange(0, i as int)).push(
                (v@[i as int].id@, v@[i as int].name@),
            ));
        }
        i = i + 1;
    }
    assert(v@.subrange(0, v.len() as int) =~= v@);
    out
}

/// Describes a selection of accounts or categories (see `scope_text`).
pub fn scope_names(selected: &Vec<String>, dims: &Vec<(String, String)>, empty: &str) -> (r: String)
    ensures
        r@ == scope_text(strings_view(selected@), pairs_text_view(dims@), empty@),
{
    if selected.len() == 0 {
        return owned(empty);
    }
    let mut names: Vec<String> = Vec::new();
    let mut i: usize = 0;
    while i < dims.len()
        invariant
            i <= dims.len(),
            strings_view(names@) == chosen_names(strings_view(selected@), pairs_text_view(dims@).subrange(0, i as int)),
        decreases dims.len() - i,
    {
        let ghost next = pairs_text_view(dims@).subrange(0, i + 1);
        assert(next.drop_last() =~= pairs_text_view(dims@).subrange(0, i as int));
        assert(next.last() == (dims@[i as int].0@, dims@[i as int].1@));
        if holds_text(selected, dims[i].0.as_str()) {
            names.push(dims[i].1.clone());
            assert(strings_view(names@) =~= chosen_names(strings_view(selected@), pairs_text_view(dims@).subrange(0, i as int)).push(dims@[i as int].1@));
        }
        i = i + 1;
    }
    assert(pairs_text_view(dims@).subrange(0, dims.len() as int) =~= pairs_text_view(dims@));
    if names.len() == 0 {
        join_texts(selected, ", ")
    } else {
        join_texts(&names, ", ")
    }
}

/// A currency button, pressed when it is the current currency.
pub open spec fn currency_button_html(x: String, current: Option<Seq<char>>) -> Seq<char> {
    "<button type=\"button\" data-currency=\""@
        + escaped(x@)
        + "\" aria-pressed=\""@
        + (if current == Some(x@) { "true"@ } else { "false"@ })
        + "\">"@
        + escaped(x@)
        + "</button>"@
}

fn currency_button(html: &mut String, x: &String, current: &Option<String>)
    ensures
        final(html)@ == old(html)@ + currency_button_html(*x, opt_view(*current)),
{
    let ghost start = html@;
    let pressed = match current {
        Some(c) => if str_eq(c.as_str(), x.as_str()) { "true" } else { "false" },
        None => "false",
    };
    assert(pressed@ == (if opt_view(*current) == Some(x@) { "true"@ } else { "false"@ }));
    push_str(html, "<button type=\"button\" data-currency=\"");
    { let t = escape(x.as_str()); push_str(html, t.as_str()); }
    push_str(html, "\" aria-pressed=\"");
    push_str(html, pressed);
    push_str(html, "\">");
    { let t = escape(x.as_str()); push_str(html, t.as_str()); }
    push_str(html, "</button>");
    assert(html@ =~= start + currency_button_html(*x, opt_view(*current)));
}

/// The currency buttons.
pub open spec fn currency_buttons_html(xs: Seq<String>, current: Option<Seq<char>>) -> Seq<char>
    decreases xs.len(),
{
    if xs.len() == 0 {
        Seq::empty()
    } else {
        currency_buttons_html(xs.drop_last(), current) + currency_button_html(xs.last(), current)
    }
}

/// The currency selector.
pub open spec fn currency_html(currencies: Seq<String>, current: Option<Seq<char>>) -> Seq<char> {
    "<nav class=\"currency-rail\" data-region=\"currency\" aria-label=\"Currency selector\"><span>Native-currency ledger</span><div>"@ + currency_buttons_html(currencies, current) + "</div></nav>"@
}

/// Appends the currency selector.
pub fn render_currency(html: &mut String, snapshot: &DashboardResponse)
    ensures
        final(html)@ == old(html)@ + currency_html(snapshot.dimensions.currencies@, opt_view(snapshot.filters.currency)),
{
    let ghost start = html@;
    push_str(html, "<nav class=\"currency-rail\" data-region=\"currency\" aria-label=\"Currency selector\"><span>Native-currency ledger</span><div>");
    {
        let xs = &snapshot.dimensions.currencies;
        let ghost before = html@;
        let mut i: usize = 0;
        assert(xs@.subrange(0, 0) =~= Seq::<_>::empty());
        while i < xs.len()
            invariant
                i <= xs.len(),
                html@ == before + currency_buttons_html(xs@.subrange(0, i as int), opt_view(snapshot.filters.currency)),
            decreases xs.len() - i,
        {
            let x = &xs[i];
            let ghost next = xs@.subrange(0, i + 1);
            assert(next.drop_last() =~= xs@.subrange(0, i as int));
            assert(next.last() == *x);
            let ghost mid = html@;
            currency_button(html, x, &snapshot.filters.currency);
            assert(html@ =~= before + currency_buttons_html(next, opt_view(snapshot.filters.currency)));
            i = i + 1;
        }
        assert(xs@.subrange(0, xs.len() as int) =~= xs@);
    }
    push_str(html, "</div></nav>");
    assert(html@ =~= start + currency_html(snapshot.dimensions.currencies@, opt_view(snapshot.filters.currency)));
}

/// The page header: the period, the account and category scope, and when
/// the snapshot was read.
pub open spec fn header_html(s: DashboardResponse) -> Seq<char> {
    let accounts = scope_text(strings_view(s.filters.account_ids@), account_pairs_view(s.dimensions.accounts@), "No accounts selected"@);
    let categories = scope_text(
        strings_view(s.filters.category_ids@),
        category_pairs_view(s.dimensions.categories@),
        "No expense categories selected"@,
    );
    "<header class=\"masthead\"><div data-region=\"scope\"><p class=\"eyebrow\">Local analytical ledger · read-only</p><h1>Monthly ledger</h1><p class=\"scope\"><time>"@
        + escaped(s.filters.start_date@)
        + "</time> through <time>"@
        + escaped(s.filters.end_date@)
        + "</time> · Accounts: "@
        + escaped(accounts)
        + " · Expense categories: "@
        + escaped(categories)
        + " · read "@
        + escaped(s.read_at@)
        + "</p></div><div class=\"masthead-actions\"><div class=\"refresh-status\" data-refresh-status role=\"status\" aria-live=\"polite\" aria-atomic=\"true\">Snapshot ready.</div><button type=\"button\" data-action=\"refresh\">Refresh</button><button type=\"button\" data-action=\"toggle-filters\" aria-expanded=\"false\">Filters</button></div></header>"@
}

/// Appends the page header.
pub fn render_header(html: &mut String, snapshot: &DashboardResponse)
    ensures
        final(html)@ == old(html)@ + header_html(*snapshot),
{
    let ghost start = html@;
    let account_dims = account_pairs(&snapshot.dimensions.accounts);
    let accounts = scope_names(&snapshot.filters.account_ids, &account_dims, "No accounts selected");
    let category_dims = category_pairs(&snapshot.dimensions.categories);
    let categories = scope_names(&snapshot.filters.category_ids, &category_dims, "No expense categories selected");
    push_str(html, "<header class=\"masthead\"><div data-region=\"scope\"><p class=\"eyebrow\">Local analytical ledger · read-only</p><h1>Monthly ledger</h1><p class=\"scope\"><time>");
    { let t = escape(snapshot.filters.start_date.as_str()); push_str(html, t.as_str()); }
    push_str(html, "</time> through <time>");
    { let t = escape(snapshot.filters.end_date.as_str()); push_str(html, t.as_str()); }
    push_str(html, "</time> · Accounts: ");
    { let t = escape(accounts.as_str()); push_str(html, t.as_str()); }
    push_str(html, " · Expense categories: ");
    { let t = escape(categories.as_str()); push_str(html, t.as_str()); }
    push_str(html, " · read ");
    { let t = escape(snapshot.read_at.as_str()); push_str(html, t.as_str()); }
    push_str(html, "</p></div><div class=\"masthead-actions\"><div class=\"refresh-status\" data-refresh-status role=\"status\" aria-live=\"polite\" aria-atomic=\"true\">Snapshot ready.</div><button type=\"button\" data-action=\"refresh\">Refresh</button><button type=\"button\" data-action=\"toggle-filters\" aria-expanded=\"false\">Filters</button></div></header>");
    assert(html@ =~= start + header_html(*snapshot));
}

/// An account filter checkbox, checked when the account is selected.
pub open spec fn account_filter_html(x: AccountDimension, selected: Seq<Seq<char>>) -> Seq<char> {
    "<label data-compatible-currency=\""@
        + escaped(x.currency@)
        + "\"><input name=\"account\" type=\"checkbox\" value=\""@
        + escaped(x.id@)
        + "\" "@
        + checked_attr_text(selected.contains(x.id@))
        + "> "@
        + escaped(x.name@)
        + " <small>"@
        + escaped(x.currency@)
        + "</small></label>"@
}

fn account_filter(html: &mut String, x: &AccountDimension, selected: &Vec<String>)
    ensures
        final(html)@ == old(html)@ + account_filter_html(*x, strings_view(selected@)),
{
    let ghost start = html@;
    let checked = holds_text(selected, x.id.as_str());
    push_str(html, "<label data-compatible-currency=\"");
    { let t = escape(x.currency.as_str()); push_str(html, t.as_str()); }
    push_str(html, "\"><input name=\"account\" type=\"checkbox\" value=\"");
    { let t = escape(x.id.as_str()); push_str(html, t.as_str()); }
    push_str(html, "\" ");
    push_str(html, checked_attr(checked));
    push_str(html, "> ");
    { let t = escape(x.name.as_str()); push_str(html, t.as_str()); }
    push_str(html, " <small>");
    { let t = escape(x.currency.as_str()); push_str(html, t.as_str()); }
    push_str(html, "</small></label>");
    assert(html@ =~= start + account_filter_html(*x, strings_view(selected@)));
}

/// A category filter checkbox, tagged with the currencies it has activity in.
pub open spec fn category_filter_html(x: CategoryDimension, selected: Seq<Seq<char>>) -> Seq<char> {
    "<label data-compatible-currency=\""@
        + escaped(texts_joined(strings_view(x.currencies@), " "@))
        + "\"><input name=\"category\" type=\"checkbox\" value=\""@
        + escaped(x.id@)
        + "\" "@
        + checked_attr_text(selected.contains(x.id@))
        + "> "@
        + escaped(x.name@)
        + "</label>"@
}

fn category_filter(html: &mut String, x: &CategoryDimension, selected: &Vec<String>)
    ensures
        final(html)@ == old(html)@ + category_filter_html(*x, strings_view(selected@)),
{
    let ghost start = html@;
    let checked = holds_text(selected, x.id.as_str());
    let currencies = join_texts(&x.currencies, " ");
    push_str(html, "<label data-compatible-currency=\"");
    { let t = escape(currencies.as_str()); push_str(html, t.as_str()); }
    push_str(html, "\"><input name=\"category\" type=\"checkbox\" value=\"");
    { let t = escape(x.id.as_str()); push_str(html, t.as_str()); }
    push_str(html, "\" ");
    push_str(html, checked_attr(checked));
    push_str(html, "> ");
    { let t = escape(x.name.as_str()); push_str(html, t.as_str()); }
    push_str(html, "</label>");
    assert(html@ =~= start + category_filter_html(*x, strings_view(selected@)));
}

/// The account checkboxes.
pub open spec fn account_filters_html(xs: Seq<AccountDimension>, selected: Seq<Seq<char>>) -> Seq<char>
    decreases xs.len(),
{
    if xs.len() == 0 {
        Seq::empty()
    } else {
        account_filters_html(xs.drop_last(), selected) + account_filter_html(xs.last(), selected)
    }
}

/// The category checkboxes.
pub open spec fn category_filters_html(xs: Seq<CategoryDimension>, selected: Seq<Seq<char>>) -> Seq<char>
    decreases xs.len(),
{
    if xs.len() == 0 {
        Seq::empty()
    } else {
        category_filters_html(xs.drop_last(), selected) + category_filter_html(xs.last(), selected)
    }
}

/// The period inputs of the filter panel.
pub open spec fn period_inputs_html(s: DashboardResponse) -> Seq<char> {
    "<label>From<input name=\"start\" type=\"date\" value=\""@
        + escaped(s.filters.start_date@)
        + "\"></label><label>Through<input name=\"end\" type=\"date\" value=\""@
        + escaped(s.filters.end_date@)
        + "\"></label>"@
}

fn period_inputs(html: &mut String, snapshot: &DashboardResponse)
    ensures
        final(html)@ == old(html)@ + period_inputs_html(*snapshot),
{
    let mut out = owned("<label>From<input name=\"start\" type=\"date\" value=\"");
    { let t = escape(snapshot.filters.start_date.as_str()); push_str(&mut out, t.as_str()); }
    push_str(&mut out, "\"></label><label>Through<input name=\"end\" type=\"date\" value=\"");
    { let t = escape(snapshot.filters.end_date.as_str()); push_str(&mut out, t.as_str()); }
    push_str(&mut out, "\"></label>");
    assert(out@ == period_inputs_html(*snapshot));
    push_str(html, out.as_str());
}

/// The filter panel: the period, and a checkbox per account and category.
pub open spec fn filters_html(s: DashboardResponse) -> Seq<char> {
    "<section class=\"filter-panel\" data-filter-panel hidden><div aria-label=\"Ledger filters\">"@ + period_inputs_html(s)
        + "<fieldset><legend>Accounts</legend>"@ + account_filters_html(s.dimensions.accounts@, strings_view(s.filters.account_ids@))
        + "</fieldset><fieldset><legend>Expense categories <small>affect expense measures only</small></legend>"@ + category_filters_html(s.dimensions.categories@, strings_view(s.filters.category_ids@))
        + "</fieldset><button class=\"primary\" type=\"button\" data-action=\"apply-filters\">Apply filters</button></div></section>"@
}

/// Appends the filter panel.
pub fn render_filters(html: &mut String, snapshot: &DashboardResponse)
    ensures
        final(html)@ == old(html)@ + filters_html(*snapshot),
{
    let ghost start = html@;
    push_str(html, "<section class=\"filter-panel\" data-filter-panel hidden><div aria-label=\"Ledger filters\">");
    period_inputs(html, snapshot);
    push_str(html, "<fieldset><legend>Accounts</legend>");
    {
        let xs = &snapshot.dimensions.accounts;
        let ghost before = html@;
        let mut i: usize = 0;
        assert(xs@.subrange(0, 0) =~= Seq::<_>::empty());
        while i < xs.len()
            invariant
                i <= xs.len(),
                html@ == before + account_filters_html(xs@.subrange(0, i as int), strings_view(snapshot.filters.account_ids@)),
            decreases xs.len() - i,
        {
            let x = &xs[i];
            let ghost next = xs@.subrange(0, i + 1);
            assert(next.drop_last() =~= xs@.subrange(0, i as int));
            assert(next.last() == *x);
            let ghost mid = html@;
            account_filter(html, x, &snapshot.filters.account_ids);
            assert(html@ =~= before + account_filters_html(next, strings_view(snapshot.filters.account_ids@)));
            i = i + 1;
        }
        assert(xs@.subrange(0, xs.len() as int) =~= xs@);
    }
    push_str(html, "</fieldset><fieldset><legend>Expense categories <small>affect expense measures only</small></legend>");
    {
        let xs = &snapshot.dimensions.categories;
        let ghost before = html@;
        let mut i: usize = 0;
        assert(xs@.subrange(0, 0) =~= Seq::<_>::empty());
        while i < xs.len()
            invariant
                i <= xs.len(),
                html@ == before + category_filters_html(xs@.subrange(0, i as int), strings_view(snapshot.filters.category_ids@)),
            decreases xs.len() - i,
        {
            let x = &xs[i];
            let ghost next = xs@.subrange(0, i + 1);
            assert(next.drop_last() =~= xs@.subrange(0, i as int));
            assert(next.last() == *x);
            let ghost mid = html@;
            category_filter(html, x, &snapshot.filters.category_ids);
            assert(html@ =~= before + category_filters_html(next, strings_view(snapshot.filters.category_ids@)));
            i = i + 1;
        }
        assert(xs@.subrange(0, xs.len() as int) =~= xs@);
    }
    push_str(html, "</fieldset><button class=\"primary\" type=\"button\" data-action=\"apply-filters\">Apply filters</button></div></section>");
    assert(html@ =~= start + filters_html(*snapshot));
}

/// A closing position row: instrument (its name when known), account,
/// quantity, cost and valuation with their currencies, effective date,
/// freshness and reconciliation status.
pub open spec fn position_html(index: usize, instrument_name: Option<Seq<char>>, p: DashboardPosition) -> Seq<char> {
    let instrument = match instrument_name {
        Some(n) => n,
        None => match opt_view(p.instrument_id) {
            Some(i) => i,
            None => "Pending allocation"@,
        },
    };
    let quantity = or_unavailable(opt_view(p.quantity));
    let cost = paired_text(opt_view(p.historical_cost_minor), opt_view(p.cost_currency));
    let valuation = paired_text(opt_view(p.observed_value_minor), opt_view(p.valuation_currency));
    let instrument_id = match opt_view(p.instrument_id) {
        Some(i) => i,
        None => Seq::empty(),
    };
    let date = match opt_view(p.effective_date) {
        Some(d) => escaped(d),
        None => "Unavailable"@,
    };
    "<tr><th scope=\"row\"><button type=\"button\" data-action=\"open-drawer\" data-detail=\"position\" data-index=\""@
        + nat_digits(index as nat)
        + "\" data-metric=\"investment_contribution\" data-account=\""@
        + escaped(p.account_id@)
        + "\" data-instrument=\""@
        + escaped(instrument_id)
        + "\">"@
        + escaped(instrument)
        + "<small>"@
        + escaped(p.account_id@)
        + "</small></button></th><td>"@
        + escaped(quantity)
        + "</td><td>"@
        + escaped(cost)
        + "</td><td>"@
        + escaped(valuation)
        + "</td><td>"@
        + date
        + "</td><td><span class=\"status status-"@
        + escaped(p.freshness@)
        + "\">"@
        + escaped(p.freshness@)
        + "</span></td><td>"@
        + escaped(p.reconciliation_status@)
        + "</td></tr>"@
}

/// Appends a closing position row.
pub fn render_position(html: &mut String, index: usize, instrument_name: Option<&str>, position: &DashboardPosition)
    ensures
        final(html)@ == old(html)@ + position_html(index, match instrument_name {
            Some(n) => Some(n@),
            None => None,
        }, *position),
{
    let instrument = match instrument_name {
        Some(n) => owned(n),
        None => match &position.instrument_id {
            Some(i) => i.clone(),
            None => owned("Pending allocation"),
        },
    };
    let quantity = match &position.quantity {
        Some(q) => q.clone(),
        None => owned("Unavailable"),
    };
    let cost = paired(&position.historical_cost_minor, &position.cost_currency);
    let valuation = paired(&position.observed_value_minor, &position.valuation_currency);
    let instrument_id = match &position.instrument_id {
        Some(i) => i.clone(),
        None => String::new(),
    };
    let date = match &position.effective_date {
        Some(d) => escape(d.as_str()),
        None => owned("Unavailable"),
    };
    let mut out = owned("<tr><th scope=\"row\"><button type=\"button\" data-action=\"open-drawer\" data-detail=\"position\" data-index=\"");
    { let t = format_u128(index as u128); push_str(&mut out, t.as_str()); }
    push_str(&mut out, "\" data-metric=\"investment_contribution\" data-account=\"");
    { let t = escape(position.account_id.as_str()); push_str(&mut out, t.as_str()); }
    push_str(&mut out, "\" data-instrument=\"");
    { let t = escape(instrument_id.as_str()); push_str(&mut out, t.as_str()); }
    push_str(&mut out, "\">");
    { let t = escape(instrument.as_str()); push_str(&mut out, t.as_str()); }
    push_str(&mut out, "<small>");
    { let t = escape(position.account_id.as_str()); push_str(&mut out, t.as_str()); }
    push_str(&mut out, "</small></button></th><td>");
    { let t = escape(quantity.as_str()); push_str(&mut out, t.as_str()); }
    push_str(&mut out, "</td><td>");
    { let t = escape(cost.as_str()); push_str(&mut out, t.as_str()); }
    push_str(&mut out, "</td><td>");
    { let t = escape(valuation.as_str()); push_str(&mut out, t.as_str()); }
    push_str(&mut out, "</td><td>");
    push_str(&mut out, date.as_str());
    push_str(&mut out, "</td><td><span class=\"status status-");
    { let t = escape(position.freshness.as_str()); push_str(&mut out, t.as_str()); }
    push_str(&mut out, "\">");
    { let t = escape(position.freshness.as_str()); push_str(&mut out, t.as_str()); }
    push_str(&mut out, "</span></td><td>");
    { let t = escape(position.reconciliation_status.as_str()); push_str(&mut out, t.as_str()); }
    push_str(&mut out, "</td></tr>");
    assert(out@ == position_html(index, match instrument_name {
        Some(n) => Some(n@),
        None => None,
    }, *position));
    push_str(html, out.as_str());
}

} // verus!
