//! Reading provider events out of investment-provider statements: which
//! provider wrote a document, and the rows of each provider's layout.
use vstd::prelude::*;
use crate::documents::{
    event_type_name, provider_name, read_money, row_money, EventType, Provider, ReviewStatus,
};
use crate::ids::{hex_of, text_sha256};
use crate::patterns::{captures, groups_of, no_ascii_digit, rewrite, rewritten};
use crate::provider_review::ProviderEvent;
use crate::review::owned;
use crate::text::{format_i64, int_digits, push_str};
use crate::documents::{date_slash, decimal, digest, plain_decimal, spec_date_slash};
use crate::exact::spec_canonical_exact;
use crate::patterns::{find_all, find_first, first_match, group_of, regex_matches, texts_of};
use crate::documents::{month, spec_month};
use crate::statement::{lowercase, lowercase_of};
use crate::text::{has_prefix, lemma_filter_push, str_eq};
use crate::statement::occurs_at;
use crate::provider_review::{document_error, is_document_error, Error};

verus! {

/// A line of document text: its page, its text, and whether it comes from
/// the page layout (positioned cells) rather than the plain text stream.
#[derive(Debug)]
pub struct TextLine {
    pub page: usize,
    pub text: String,
    pub positioned: bool,
}

/// Version stamped on every event these parsers emit.
pub const PARSER_VERSION: &'static str = "1";

/// What a provider's row rule reads from one row.
pub struct ParsedRow {
    pub event_type: EventType,
    pub effective_date: String,
    pub currency: &'static str,
    pub amount_minor: i64,
    pub instrument_hint: Option<String>,
    pub quantity: Option<String>,
}

/// The contents of a parsed row.
pub struct RowView {
    pub event_type: EventType,
    pub date: Seq<char>,
    pub currency: Seq<char>,
    pub amount: i64,
    pub instrument_hint: Option<Seq<char>>,
    pub quantity: Option<Seq<char>>,
}

/// The view of an optional string.
pub open spec fn opt_text(o: Option<String>) -> Option<Seq<char>> {
    match o {
        Some(s) => Some(s@),
        None => None,
    }
}

pub open spec fn row_view(r: ParsedRow) -> RowView {
    RowView {
        event_type: r.event_type,
        date: r.effective_date@,
        currency: r.currency@,
        amount: r.amount_minor,
        instrument_hint: opt_text(r.instrument_hint),
        quantity: opt_text(r.quantity),
    }
}

pub open spec fn opt_row_view(r: Option<ParsedRow>) -> Option<RowView> {
    match r {
        Some(x) => Some(row_view(x)),
        None => None,
    }
}

/// The fields of a provider event that a parser sets.
pub struct EventView {
    pub id: Seq<char>,
    pub provider: Provider,
    pub parser_id: Seq<char>,
    pub event_type: EventType,
    pub date: Seq<char>,
    pub currency: Seq<char>,
    pub amount: Option<i64>,
    pub instrument_hint: Option<Seq<char>>,
    pub quantity: Option<Seq<char>>,
    pub page: usize,
    pub row_index: usize,
    pub evidence: Seq<char>,
    pub fingerprint: Seq<char>,
    pub source: Seq<char>,
}

pub open spec fn event_view(e: ProviderEvent) -> EventView {
    EventView {
        id: e.id@,
        provider: e.provider,
        parser_id: e.parser_id@,
        event_type: e.event_type,
        date: e.provider_effective_date@,
        currency: e.currency@,
        amount: e.amount_minor,
        instrument_hint: opt_text(e.instrument_hint),
        quantity: opt_text(e.quantity),
        page: e.page_number,
        row_index: e.row_index,
        evidence: e.evidence_redaction@,
        fingerprint: e.fingerprint@,
        source: e.source_document_id@,
    }
}

pub open spec fn events_view(v: Seq<ProviderEvent>) -> Seq<EventView> {
    v.map_values(|e: ProviderEvent| event_view(e))
}

/// A freshly parsed event: version `1`, pending review, and linked to
/// nothing yet.
pub open spec fn fresh(e: ProviderEvent) -> bool {
    &&& e.parser_version@ == PARSER_VERSION@
    &&& e.external_reference is None
    &&& e.status == ReviewStatus::PendingReview
    &&& e.decision is None
    &&& e.reconciled_kind is None
    &&& e.reconciled_id is None
    &&& e.import_batch_id is None
    &&& e.account_id is None
    &&& e.provenance_id is None
    &&& e.accepted_snapshot_id is None
    &&& no_ascii_digit(e.evidence_redaction@)
}

/// Every digit.
pub const DIGIT_PATTERN: &'static str = r"\d";

/// `s` with every digit written `#`.
pub open spec fn digits_hidden(s: Seq<char>) -> Seq<char> {
    rewritten(DIGIT_PATTERN@, s, "#"@)
}

/// Hides the digits of evidence text.
pub fn redact(s: &str) -> (r: String)
    ensures
        r@ == digits_hidden(s@),
        no_ascii_digit(r@),
{
    proof {
        reveal_strlit("#");
        reveal_strlit(r"\d");
        assert(DIGIT_PATTERN@ =~= crate::patterns::digit_class());
        assert(!"#"@.contains('$')) by {
            if "#"@.contains('$') {
                let j = choose|j: int| 0 <= j < "#"@.len() && "#"@[j] == '$';
                assert("#"@[0] == '#');
            }
        }
    }
    rewrite(DIGIT_PATTERN, s, "#")
}

/// `{:?}` of a string: quoted, with special characters escaped.
pub uninterp spec fn debug_of(s: Seq<char>) -> Seq<char>;

/// Formats `s` with `{:?}`.  Claimed: the result is what `debug_of` names.
#[verifier::external_body]
fn debug_text(s: &str) -> (r: String)
    ensures
        r@ == debug_of(s@),
{
    format!("{:?}", s)
}

/// `{:?}` of an optional string.
pub open spec fn option_debug(o: Option<Seq<char>>) -> Seq<char> {
    match o {
        Some(s) => "Some("@ + debug_of(s) + ")"@,
        None => "None"@,
    }
}

fn push_option_debug(out: &mut String, o: &Option<String>)
    ensures
        final(out)@ == old(out)@ + option_debug(opt_text(*o)),
{
    match o {
        Some(s) => {
            push_str(out, "Some(");
            let d = debug_text(s.as_str());
            push_str(out, d.as_str());
            push_str(out, ")");
        },
        None => push_str(out, "None"),
    }
}

/// The identifier of an event: `invevt_` and 24 hex digits of the digest of
/// its source document and fingerprint.
pub open spec fn event_id(source: Seq<char>, fingerprint: Seq<char>) -> Seq<char> {
    "invevt_"@ + hex_of(text_sha256(source + "|"@ + fingerprint)).subrange(0, 24)
}

fn make_event_id(source: &str, fingerprint: &str) -> (r: String)
    ensures
        r@ == event_id(source@, fingerprint@),
{
    let mut key = owned(source);
    push_str(&mut key, "|");
    push_str(&mut key, fingerprint);
    let d = digest(key.as_str());
    let v = crate::text::to_chars(d.as_str());
    let mut out = owned("invevt_");
    crate::text::push_chars(&mut out, &v, 0, 24);
    out
}

/// The text a row's fingerprint digests: provider, event type, date,
/// currency, amount, instrument and quantity, separated by `|`.
pub open spec fn row_fingerprint_text(provider: Provider, row: RowView) -> Seq<char> {
    provider_name(provider) + "|"@ + event_type_name(row.event_type) + "|"@ + row.date + "|"@ + row.currency
        + "|"@ + int_digits(row.amount as int) + "|"@ + option_debug(row.instrument_hint) + "|"@
        + option_debug(row.quantity)
}

/// The event a parsed row of line `line` (number `index`, from zero) yields.
pub open spec fn row_event(source: Seq<char>, provider: Provider, line: TextLine, index: int, row: RowView) -> EventView {
    let fp = hex_of(text_sha256(row_fingerprint_text(provider, row)));
    EventView {
        id: event_id(source, fp),
        provider,
        parser_id: provider_name(provider) + ".investment-document.v1"@,
        event_type: row.event_type,
        date: row.date,
        currency: row.currency,
        amount: Some(row.amount),
        instrument_hint: row.instrument_hint,
        quantity: row.quantity,
        page: line.page,
        row_index: (index + 1) as usize,
        evidence: digits_hidden(line.text@),
        fingerprint: fp,
        source,
    }
}

/// The events of the first `n` lines, in order: one for each line whose row
/// rule read something.
pub open spec fn row_events(
    source: Seq<char>,
    provider: Provider,
    lines: Seq<TextLine>,
    parsed: Seq<Option<RowView>>,
    n: nat,
) -> Seq<EventView>
    decreases n,
{
    if n == 0 {
        Seq::<EventView>::empty()
    } else {
        let before = row_events(source, provider, lines, parsed, (n - 1) as nat);
        match parsed[n - 1] {
            Some(row) => before.push(row_event(source, provider, lines[n - 1], n - 1, row)),
            None => before,
        }
    }
}

/// The events of `lines`, given what the provider's row rule read from each
/// (`parsed[i]` for `lines[i]`).
pub fn parse_rows(
    source: &str,
    provider: Provider,
    lines: &Vec<TextLine>,
    parsed: &Vec<Option<ParsedRow>>,
) -> (r: Vec<ProviderEvent>)
    requires
        parsed.len() == lines.len(),
    ensures
        events_view(r@) == row_events(source@, provider, lines@, parsed@.map_values(|p: Option<ParsedRow>| opt_row_view(p)), lines.len() as nat),
        forall|i: int| 0 <= i < r.len() ==> fresh(#[trigger] r@[i]),
{
    let ghost views = parsed@.map_values(|p: Option<ParsedRow>| opt_row_view(p));
    let mut out: Vec<ProviderEvent> = Vec::new();
    let mut i: usize = 0;
    while i < lines.len()
        invariant
            i <= lines.len(),
            parsed.len() == lines.len(),
            views == parsed@.map_values(|p: Option<ParsedRow>| opt_row_view(p)),
            events_view(out@) == row_events(source@, provider, lines@, views, i as nat),
            forall|j: int| 0 <= j < out.len() ==> fresh(#[trigger] out@[j]),
        decreases lines.len() - i,
    {
        let line = &lines[i];
        match &parsed[i] {
            Some(p) => {
                let ghost row = row_view(*p);
                let mut text = owned(provider.as_str());
                push_str(&mut text, "|");
                push_str(&mut text, p.event_type.as_str());
                push_str(&mut text, "|");
                push_str(&mut text, p.effective_date.as_str());
                push_str(&mut text, "|");
                push_str(&mut text, p.currency);
                push_str(&mut text, "|");
                let amount = format_i64(p.amount_minor);
                push_str(&mut text, amount.as_str());
                push_str(&mut text, "|");
                push_option_debug(&mut text, &p.instrument_hint);
                push_str(&mut text, "|");
                push_option_debug(&mut text, &p.quantity);
                assert(text@ =~= row_fingerprint_text(provider, row));
                let fp = digest(text.as_str());
                let id = make_event_id(source, fp.as_str());
                let mut parser_id = owned(provider.as_str());
                push_str(&mut parser_id, ".investment-document.v1");
                let e = ProviderEvent {
                    id,
                    provider,
                    parser_id,
                    parser_version: owned(PARSER_VERSION),
                    event_type: p.event_type,
                    provider_effective_date: p.effective_date.clone(),
                    currency: owned(p.currency),
                    amount_minor: Some(p.amount_minor),
                    instrument_hint: crate::cdt::copy_opt(&p.instrument_hint),
                    quantity: crate::cdt::copy_opt(&p.quantity),
                    external_reference: None,
                    page_number: line.page,
                    row_index: i + 1,
                    evidence_redaction: redact(line.text.as_str()),
                    fingerprint: fp,
                    status: ReviewStatus::PendingReview,
                    decision: None,
                    reconciled_kind: None,
                    reconciled_id: None,
                    source_document_id: owned(source),
                    import_batch_id: None,
                    provenance_id: None,
                    accepted_snapshot_id: None,
                    account_id: None,
                };
                proof {
                    assert(views[i as int] == Some(row));
                    assert(event_view(e) == row_event(source@, provider, lines@[i as int], i as int, row));
                }
                out.push(e);
                proof {
                    assert(events_view(out@) =~= row_events(source@, provider, lines@, views, i as nat).push(
                        event_view(e),
                    ));
                }
            },
            None => {
                assert(views[i as int] is None);
            },
        }
        i = i + 1;
    }
    out
}

/// Group `i` of captured groups `g`.
fn group(g: &Vec<Option<String>>, i: usize) -> (r: Option<String>)
    ensures
        opt_text(r) == (if i < g.len() { groups_of(g@)[i as int] } else { None }),
{
    if i < g.len() {
        match &g[i] {
            Some(t) => Some(t.clone()),
            None => None,
        }
    } else {
        None
    }
}

/// The texts of `lines` joined by `sep`.
pub open spec fn lines_joined(lines: Seq<TextLine>, sep: Seq<char>) -> Seq<char>
    decreases lines.len(),
{
    if lines.len() == 0 {
        Seq::<char>::empty()
    } else if lines.len() == 1 {
        lines[0].text@
    } else {
        lines_joined(lines.drop_last(), sep) + sep + lines.last().text@
    }
}

/// The texts of `lines` joined by `sep`.
fn join_lines(lines: &Vec<TextLine>, sep: &str) -> (r: String)
    ensures
        r@ == lines_joined(lines@, sep@),
{
    let mut out = String::new();
    let mut i: usize = 0;
    assert(lines@.subrange(0, 0) =~= Seq::<TextLine>::empty());
    while i < lines.len()
        invariant
            i <= lines.len(),
            out@ == lines_joined(lines@.subrange(0, i as int), sep@),
        decreases lines.len() - i,
    {
        let ghost next = lines@.subrange(0, i + 1);
        assert(next.drop_last() =~= lines@.subrange(0, i as int));
        if i > 0 {
            push_str(&mut out, sep);
        }
        push_str(&mut out, lines[i].text.as_str());
        proof {
            if i == 0 {
                assert(out@ =~= next[0].text@);
            } else {
                assert(out@ =~= lines_joined(next.drop_last(), sep@) + sep@ + next.last().text@);
            }
        }
        i = i + 1;
    }
    assert(lines@.subrange(0, lines.len() as int) =~= lines@);
    out
}

/// A Plenti movement row: date, kind of deposit, and two amounts.
pub const PLENTI_ROW_PATTERN: &'static str = r"^(\d{2}/\d{2}/\d{4})\s+(Recarga Bre-B|Depósito amigo Plenti).*?([\d,.]+)\s+([\d,.]+)$";

/// What Plenti's row rule reads: a COP deposit on the row's date for the
/// row's last amount.
pub open spec fn plenti_row(text: Seq<char>) -> Option<RowView> {
    match (group_of(PLENTI_ROW_PATTERN@, text, 1), group_of(PLENTI_ROW_PATTERN@, text, 4)) {
        (Some(d), Some(a)) => match (spec_date_slash(d), row_money(a)) {
            (Some(date), Some(amount)) => Some(
                RowView {
                    event_type: EventType::Deposit,
                    date,
                    currency: "COP"@,
                    amount: amount as i64,
                    instrument_hint: None,
                    quantity: None,
                },
            ),
            _ => None,
        },
        _ => None,
    }
}

fn read_plenti_row(text: &str) -> (r: Option<ParsedRow>)
    ensures
        opt_row_view(r) == plenti_row(text@),
{
    let g = match captures(PLENTI_ROW_PATTERN, text) {
        Some(Some(g)) => g,
        _ => return None,
    };
    let d = match group(&g, 1) {
        Some(x) => x,
        None => return None,
    };
    let a = match group(&g, 4) {
        Some(x) => x,
        None => return None,
    };
    let date = match date_slash(d.as_str()) {
        Some(x) => x,
        None => return None,
    };
    let amount = match read_money(a.as_str()) {
        Some(x) => x,
        None => return None,
    };
    let r = ParsedRow {
        event_type: EventType::Deposit,
        effective_date: date,
        currency: "COP",
        amount_minor: amount,
        instrument_hint: None,
        quantity: None,
    };
    assert(opt_row_view(Some(r)) == plenti_row(text@));
    Some(r)
}

/// The events of a Plenti statement's rows.
pub fn parse_plenti(source: &str, lines: &Vec<TextLine>) -> (r: Vec<ProviderEvent>)
    ensures
        events_view(r@) == row_events(
            source@,
            Provider::Plenti,
            lines@,
            Seq::new(lines.len() as nat, |i: int| plenti_row(lines@[i].text@)),
            lines.len() as nat,
        ),
        forall|i: int| 0 <= i < r.len() ==> fresh(#[trigger] r@[i]),
{
    let mut parsed: Vec<Option<ParsedRow>> = Vec::new();
    let mut i: usize = 0;
    while i < lines.len()
        invariant
            i <= lines.len(),
            parsed.len() == i,
            forall|j: int| 0 <= j < i ==> opt_row_view(#[trigger] parsed@[j]) == plenti_row(lines@[j].text@),
        decreases lines.len() - i,
    {
        parsed.push(read_plenti_row(lines[i].text.as_str()));
        i = i + 1;
    }
    assert(parsed@.map_values(|p: Option<ParsedRow>| opt_row_view(p)) =~= Seq::new(
        lines.len() as nat,
        |i: int| plenti_row(lines@[i].text@),
    ));
    parse_rows(source, Provider::Plenti, lines, &parsed)
}

/// The closing date of a Wenia report period.
pub const WENIA_PERIOD_PATTERN: &'static str = r"Periodo del informe: del \d{2}/\d{2}/\d{4} al (\d{2}/\d{2}/\d{4})";

/// A Wenia position row: asset, quantity, asset again, and a USD value.
pub const WENIA_ROW_PATTERN: &'static str = r"^(COPW|USDW).*?([\d.,]+)\s+(COPW|USDW).*?([\d.,]+)\s+USD";

/// The date of a Wenia report: the end of its period, written
/// `yyyy-mm-dd`, or empty when the text states none.
pub open spec fn wenia_date(all: Seq<char>) -> Seq<char> {
    match group_of(WENIA_PERIOD_PATTERN@, all, 1) {
        Some(d) => match spec_date_slash(d) {
            Some(x) => x,
            None => Seq::<char>::empty(),
        },
        None => Seq::<char>::empty(),
    }
}

/// What Wenia's row rule reads: an observed position in the row's asset,
/// with its exact quantity and USD value, dated `date`.
pub open spec fn wenia_row(date: Seq<char>, text: Seq<char>) -> Option<RowView> {
    match (
        group_of(WENIA_ROW_PATTERN@, text, 1),
        group_of(WENIA_ROW_PATTERN@, text, 2),
        group_of(WENIA_ROW_PATTERN@, text, 4),
    ) {
        (Some(asset), Some(q), Some(a)) => match (row_money(a), spec_canonical_exact(plain_decimal(q), false)) {
            (Some(amount), Some(quantity)) => Some(
                RowView {
                    event_type: EventType::ObservedPosition,
                    date,
                    currency: "USD"@,
                    amount: amount as i64,
                    instrument_hint: Some(asset),
                    quantity: Some(quantity),
                },
            ),
            _ => None,
        },
        _ => None,
    }
}

fn read_wenia_row(date: &String, text: &str) -> (r: Option<ParsedRow>)
    ensures
        opt_row_view(r) == wenia_row(date@, text@),
{
    let g = match captures(WENIA_ROW_PATTERN, text) {
        Some(Some(g)) => g,
        _ => return None,
    };
    let asset = match group(&g, 1) {
        Some(x) => x,
        None => return None,
    };
    let q = match group(&g, 2) {
        Some(x) => x,
        None => return None,
    };
    let a = match group(&g, 4) {
        Some(x) => x,
        None => return None,
    };
    let amount = match read_money(a.as_str()) {
        Some(x) => x,
        None => return None,
    };
    let quantity = match decimal(q.as_str()) {
        Some(x) => x,
        None => return None,
    };
    let r = ParsedRow {
        event_type: EventType::ObservedPosition,
        effective_date: date.clone(),
        currency: "USD",
        amount_minor: amount,
        instrument_hint: Some(asset),
        quantity: Some(quantity),
    };
    assert(opt_row_view(Some(r)) == wenia_row(date@, text@));
    Some(r)
}

/// The date of a Wenia report (see `wenia_date`).
fn read_wenia_date(all: &str) -> (r: String)
    ensures
        r@ == wenia_date(all@),
{
    let g = match captures(WENIA_PERIOD_PATTERN, all) {
        Some(Some(g)) => g,
        _ => return String::new(),
    };
    match group(&g, 1) {
        Some(d) => match date_slash(d.as_str()) {
            Some(x) => x,
            None => String::new(),
        },
        None => String::new(),
    }
}

/// The events of a Wenia report's rows, dated by the report period.
pub fn parse_wenia(source: &str, lines: &Vec<TextLine>) -> (r: Vec<ProviderEvent>)
    ensures
        events_view(r@) == row_events(
            source@,
            Provider::Wenia,
            lines@,
            Seq::new(lines.len() as nat, |i: int| wenia_row(wenia_date(lines_joined(lines@, " "@)), lines@[i].text@)),
            lines.len() as nat,
        ),
        forall|i: int| 0 <= i < r.len() ==> fresh(#[trigger] r@[i]),
{
    let all = join_lines(lines, " ");
    let date = read_wenia_date(all.as_str());
    let mut parsed: Vec<Option<ParsedRow>> = Vec::new();
    let mut i: usize = 0;
    while i < lines.len()
        invariant
            i <= lines.len(),
            parsed.len() == i,
            date@ == wenia_date(lines_joined(lines@, " "@)),
            forall|j: int| 0 <= j < i ==> opt_row_view(#[trigger] parsed@[j]) == wenia_row(date@, lines@[j].text@),
        decreases lines.len() - i,
    {
        parsed.push(read_wenia_row(&date, lines[i].text.as_str()));
        i = i + 1;
    }
    assert(parsed@.map_values(|p: Option<ParsedRow>| opt_row_view(p)) =~= Seq::new(
        lines.len() as nat,
        |i: int| wenia_row(wenia_date(lines_joined(lines@, " "@)), lines@[i].text@),
    ));
    parse_rows(source, Provider::Wenia, lines, &parsed)
}

/// A four-digit year of this century.
pub const YEAR_PATTERN: &'static str = r"20\d{2}";

/// The year of a document: the first `20yy` in its text, lines joined by
/// spaces.
pub open spec fn document_year(lines: Seq<TextLine>) -> Option<Seq<char>> {
    first_match(YEAR_PATTERN@, lines_joined(lines, " "@))
}

/// The year of a document (see `document_year`).
pub fn year_from(lines: &Vec<TextLine>) -> (r: Option<String>)
    ensures
        opt_text(r) == document_year(lines@),
{
    let all = join_lines(lines, " ");
    find_first(YEAR_PATTERN, all.as_str())
}

/// A NU movement: day, Spanish month, one of three CDT movements, and a
/// signed amount.
pub const NU_MOVEMENT_PATTERN: &'static str = r"(?i)(\d{2})\s+(ene|feb|mar|abr|may|jun|jul|ago|sep|oct|nov|dic)\s+(Abriste\s+un\s+CDT|Recibiste\s+dinero\s+de\s+un\s+CDT|Enviaste\s+a\s+Plenti)\s+([+-]?\$\s*[\d.,]+)";

/// The lines of the plain text stream.
pub open spec fn is_linear(l: TextLine) -> bool {
    !l.positioned
}

/// The plain text of a document: its unpositioned lines joined by spaces.
pub open spec fn linear_text(lines: Seq<TextLine>) -> Seq<char> {
    lines_joined(lines.filter(|l: TextLine| is_linear(l)), " "@)
}

/// The NU movements found in the plain text of a document.
pub open spec fn nu_matches(lines: Seq<TextLine>) -> Seq<Seq<char>> {
    match regex_matches(NU_MOVEMENT_PATTERN@, linear_text(lines)) {
        Some(ms) => ms,
        None => Seq::<Seq<char>>::empty(),
    }
}

/// The positioned rows of a document, each with its page and its number
/// (from one) among all rows.
pub open spec fn positioned_rows(rows: Seq<TextLine>) -> Seq<(usize, usize, Seq<char>)>
    decreases rows.len(),
{
    if rows.len() == 0 {
        Seq::empty()
    } else {
        let before = positioned_rows(rows.drop_last());
        if rows.last().positioned {
            before.push((rows.last().page, rows.len() as usize, rows.last().text@))
        } else {
            before
        }
    }
}

/// Movements found in plain text, on page 1, numbered from one.
pub open spec fn linear_rows(ms: Seq<Seq<char>>) -> Seq<(usize, usize, Seq<char>)> {
    Seq::new(ms.len(), |k: int| (1usize, (k + 1) as usize, ms[k]))
}

/// The event type of a NU movement: `Abriste…` opens a CDT, `Recibiste…`
/// returns one, anything else is a withdrawal to Plenti.
pub open spec fn nu_kind(kind: Seq<char>) -> EventType {
    let k = lowercase_of(kind);
    if k.len() >= 7 && k.subrange(0, 7) == "abriste"@ {
        EventType::CdtOpening
    } else if k.len() >= 9 && k.subrange(0, 9) == "recibiste"@ {
        EventType::CdtReturn
    } else {
        EventType::Withdrawal
    }
}

/// `s` without its spaces.
pub open spec fn without_spaces(s: Seq<char>) -> Seq<char> {
    s.filter(|c: char| c != ' ')
}

/// The fingerprint of a NU movement.
pub open spec fn nu_fingerprint(kind: EventType, date: Seq<char>, amount: int) -> Seq<char> {
    hex_of(text_sha256("nu|"@ + event_type_name(kind) + "|"@ + date + "|COP|"@ + int_digits(amount)))
}

/// The event a NU row yields, when it holds a movement with a readable
/// amount: dated `year-month-day`, in COP, with the matched text as
/// evidence.
pub open spec fn nu_event(source: Seq<char>, year: Seq<char>, row: (usize, usize, Seq<char>)) -> Option<EventView> {
    let text = row.2;
    match (
        group_of(NU_MOVEMENT_PATTERN@, text, 0),
        group_of(NU_MOVEMENT_PATTERN@, text, 1),
        group_of(NU_MOVEMENT_PATTERN@, text, 2),
        group_of(NU_MOVEMENT_PATTERN@, text, 3),
        group_of(NU_MOVEMENT_PATTERN@, text, 4),
    ) {
        (Some(whole), Some(day), Some(month), Some(kind), Some(amount_text)) => match row_money(
            without_spaces(amount_text),
        ) {
            Some(amount) => {
                let typ = nu_kind(kind);
                let date = year + "-"@ + spec_month(month) + "-"@ + day;
                let fp = nu_fingerprint(typ, date, amount);
                Some(
                    EventView {
                        id: event_id(source, fp),
                        provider: Provider::Nu,
                        parser_id: "nu.investment-document.v1"@,
                        event_type: typ,
                        date,
                        currency: "COP"@,
                        amount: Some(amount as i64),
                        instrument_hint: None,
                        quantity: None,
                        page: row.0,
                        row_index: row.1,
                        evidence: digits_hidden(whole),
                        fingerprint: fp,
                        source,
                    },
                )
            },
            None => None,
        },
        _ => None,
    }
}

/// The events of NU rows, in order.
pub open spec fn nu_events(source: Seq<char>, year: Seq<char>, rows: Seq<(usize, usize, Seq<char>)>) -> Seq<EventView>
    decreases rows.len(),
{
    if rows.len() == 0 {
        Seq::empty()
    } else {
        let before = nu_events(source, year, rows.drop_last());
        match nu_event(source, year, rows.last()) {
            Some(e) => before.push(e),
            None => before,
        }
    }
}

/// `s` without its spaces (`str::replace(' ', "")`).
fn remove_spaces(s: &str) -> (r: String)
    ensures
        r@ == without_spaces(s@),
{
    let v = crate::text::to_chars(s);
    let mut out = String::new();
    let mut k: usize = 0;
    assert(v@.subrange(0, 0).filter(|c: char| c != ' ') =~= Seq::<char>::empty()) by {
        reveal_with_fuel(Seq::<_>::filter, 1);
    }
    while k < v.len()
        invariant
            k <= v.len(),
            v@ == s@,
            out@ == v@.subrange(0, k as int).filter(|c: char| c != ' '),
        decreases v.len() - k,
    {
        proof {
            let a = v@.subrange(0, k as int);
            assert(v@.subrange(0, k + 1) =~= a.push(v@[k as int]));
            reveal_with_fuel(Seq::<_>::filter, 1);
            assert(a.push(v@[k as int]).drop_last() =~= a);
        }
        if v[k] != ' ' {
            crate::text::push_char(&mut out, v[k]);
        }
        k = k + 1;
    }
    assert(v@.subrange(0, v.len() as int) =~= s@);
    out
}

/// The event a NU row yields (see `nu_event`).
fn read_nu_event(source: &str, year: &str, page: usize, index: usize, text: &str) -> (r: Option<ProviderEvent>)
    ensures
        match r {
            Some(e) => nu_event(source@, year@, (page, index, text@)) == Some(event_view(e)) && fresh(e),
            None => nu_event(source@, year@, (page, index, text@)) is None,
        },
{
    let g = match captures(NU_MOVEMENT_PATTERN, text) {
        Some(Some(g)) => g,
        _ => return None,
    };
    let whole = match group(&g, 0) {
        Some(x) => x,
        None => return None,
    };
    let day = match group(&g, 1) {
        Some(x) => x,
        None => return None,
    };
    let mon = match group(&g, 2) {
        Some(x) => x,
        None => return None,
    };
    let kind = match group(&g, 3) {
        Some(x) => x,
        None => return None,
    };
    let amount_text = match group(&g, 4) {
        Some(x) => x,
        None => return None,
    };
    let compact = remove_spaces(amount_text.as_str());
    let amount = match read_money(compact.as_str()) {
        Some(x) => x,
        None => return None,
    };
    let lower = lowercase(kind.as_str());
    let typ = if has_prefix(lower.as_str(), "abriste") {
        EventType::CdtOpening
    } else if has_prefix(lower.as_str(), "recibiste") {
        EventType::CdtReturn
    } else {
        EventType::Withdrawal
    };
    proof {
        reveal_strlit("abriste");
        reveal_strlit("recibiste");
    }
    assert(typ == nu_kind(kind@));
    let mut date = owned(year);
    push_str(&mut date, "-");
    push_str(&mut date, month(mon.as_str()));
    push_str(&mut date, "-");
    push_str(&mut date, day.as_str());
    let mut key = owned("nu|");
    push_str(&mut key, typ.as_str());
    push_str(&mut key, "|");
    push_str(&mut key, date.as_str());
    push_str(&mut key, "|COP|");
    let digits = format_i64(amount);
    push_str(&mut key, digits.as_str());
    let fp = digest(key.as_str());
    let id = make_event_id(source, fp.as_str());
    let e = ProviderEvent {
        id,
        provider: Provider::Nu,
        parser_id: owned("nu.investment-document.v1"),
        parser_version: owned(PARSER_VERSION),
        event_type: typ,
        provider_effective_date: date,
        currency: owned("COP"),
        amount_minor: Some(amount),
        instrument_hint: None,
        quantity: None,
        external_reference: None,
        page_number: page,
        row_index: index,
        evidence_redaction: redact(whole.as_str()),
        fingerprint: fp,
        status: ReviewStatus::PendingReview,
        decision: None,
        reconciled_kind: None,
        reconciled_id: None,
        source_document_id: owned(source),
        import_batch_id: None,
        provenance_id: None,
        accepted_snapshot_id: None,
        account_id: None,
    };
    assert(nu_event(source@, year@, (page, index, text@)) == Some(event_view(e)));
    Some(e)
}

/// The plain text of a document (see `linear_text`).
fn read_linear_text(lines: &Vec<TextLine>) -> (r: String)
    ensures
        r@ == linear_text(lines@),
{
    let mut out = String::new();
    let mut count: usize = 0;
    let mut i: usize = 0;
    assert(lines@.subrange(0, 0).filter(|l: TextLine| is_linear(l)) =~= Seq::<TextLine>::empty()) by {
        reveal_with_fuel(Seq::<_>::filter, 1);
    }
    while i < lines.len()
        invariant
            i <= lines.len(),
            count == lines@.subrange(0, i as int).filter(|l: TextLine| is_linear(l)).len(),
            out@ == lines_joined(lines@.subrange(0, i as int).filter(|l: TextLine| is_linear(l)), " "@),
        decreases lines.len() - i,
    {
        let ghost pre = lines@.subrange(0, i as int);
        proof {
            assert(lines@.subrange(0, i + 1) =~= pre.push(lines@[i as int]));
            lemma_filter_push(pre, lines@[i as int], |l: TextLine| is_linear(l));
        }
        if !lines[i].positioned {
            let ghost f = pre.filter(|l: TextLine| is_linear(l)).push(lines@[i as int]);
            assert(f.drop_last() =~= pre.filter(|l: TextLine| is_linear(l)));
            if count > 0 {
                push_str(&mut out, " ");
            }
            push_str(&mut out, lines[i].text.as_str());
            proof {
                if count == 0 {
                    assert(out@ =~= f[0].text@);
                } else {
                    assert(out@ =~= lines_joined(f.drop_last(), " "@) + " "@ + f.last().text@);
                }
            }
            count = count + 1;
        }
        i = i + 1;
    }
    assert(lines@.subrange(0, lines.len() as int) =~= lines@);
    out
}

/// The events of a NU statement: its positioned rows, then the movements
/// found in its plain text; none when the document states no year.
pub fn parse_nu(source: &str, lines: &Vec<TextLine>, logical_rows: &Vec<TextLine>) -> (r: Vec<ProviderEvent>)
    ensures
        match document_year(lines@) {
            Some(year) => events_view(r@) == nu_events(source@, year, positioned_rows(logical_rows@))
                + nu_events(source@, year, linear_rows(nu_matches(lines@))),
            None => r.len() == 0,
        },
        forall|i: int| 0 <= i < r.len() ==> fresh(#[trigger] r@[i]),
{
    let year = match year_from(lines) {
        Some(y) => y,
        None => return Vec::new(),
    };
    let mut out: Vec<ProviderEvent> = Vec::new();
    let mut i: usize = 0;
    assert(logical_rows@.subrange(0, 0) =~= Seq::<TextLine>::empty());
    while i < logical_rows.len()
        invariant
            i <= logical_rows.len(),
            events_view(out@) == nu_events(source@, year@, positioned_rows(logical_rows@.subrange(0, i as int))),
            forall|j: int| 0 <= j < out.len() ==> fresh(#[trigger] out@[j]),
        decreases logical_rows.len() - i,
    {
        let ghost pre = logical_rows@.subrange(0, i as int);
        let ghost next = logical_rows@.subrange(0, i + 1);
        assert(next.drop_last() =~= pre);
        let row = &logical_rows[i];
        if row.positioned {
            let ghost t = (row.page, (i + 1) as usize, row.text@);
            assert(positioned_rows(next) =~= positioned_rows(pre).push(t));
            assert(positioned_rows(next).drop_last() =~= positioned_rows(pre));
            match read_nu_event(source, year.as_str(), row.page, i + 1, row.text.as_str()) {
                Some(e) => {
                    out.push(e);
                    assert(events_view(out@) =~= nu_events(source@, year@, positioned_rows(pre)).push(event_view(e)));
                },
                None => {},
            }
        } else {
            assert(positioned_rows(next) == positioned_rows(pre));
        }
        i = i + 1;
    }
    assert(logical_rows@.subrange(0, logical_rows.len() as int) =~= logical_rows@);
    let ghost first = events_view(out@);
    let linear = read_linear_text(lines);
    let found = match find_all(NU_MOVEMENT_PATTERN, linear.as_str()) {
        Some(v) => v,
        None => Vec::new(),
    };
    let ghost ms = nu_matches(lines@);
    assert(texts_of(found@) == ms);
    let mut k: usize = 0;
    assert(linear_rows(ms.subrange(0, 0)) =~= Seq::<(usize, usize, Seq<char>)>::empty());
    while k < found.len()
        invariant
            k <= found.len(),
            texts_of(found@) == ms,
            events_view(out@) == first + nu_events(source@, year@, linear_rows(ms.subrange(0, k as int))),
            forall|j: int| 0 <= j < out.len() ==> fresh(#[trigger] out@[j]),
        decreases found.len() - k,
    {
        let ghost pre = linear_rows(ms.subrange(0, k as int));
        let ghost next = linear_rows(ms.subrange(0, k + 1));
        assert(next =~= pre.push((1usize, (k + 1) as usize, ms[k as int])));
        assert(next.drop_last() =~= pre);
        assert(found@[k as int]@ == ms[k as int]);
        let ghost before = events_view(out@);
        match read_nu_event(source, year.as_str(), 1, k + 1, found[k].as_str()) {
            Some(e) => {
                out.push(e);
                assert(events_view(out@) =~= before.push(event_view(e)));
                assert(before.push(event_view(e)) =~= first + nu_events(source@, year@, pre).push(event_view(e)));
            },
            None => {},
        }
        k = k + 1;
    }
    assert(ms.subrange(0, found.len() as int) =~= ms);
    out
}

/// `p` occurs somewhere in `s` (`str::contains`).
pub open spec fn contains_text(s: Seq<char>, p: Seq<char>) -> bool {
    exists|i: int| 0 <= i && i + p.len() <= s.len() && #[trigger] s.subrange(i, i + p.len()) == p
}

/// Whether `p` occurs in `s`.
pub(crate) fn contains_str(s: &str, p: &str) -> (r: bool)
    ensures
        r == contains_text(s@, p@),
{
    let v = crate::text::to_chars(s);
    let w = crate::text::to_chars(p);
    if w.len() > v.len() {
        return false;
    }
    let last = v.len() - w.len();
    let mut i: usize = 0;
    loop
        invariant
            w.len() <= v.len(),
            last == v.len() - w.len(),
            i <= last,
            v@ == s@,
            w@ == p@,
            forall|j: int| 0 <= j < i ==> #[trigger] s@.subrange(j, j + p@.len()) != p@,
        decreases last - i,
    {
        if occurs_at(&v, i, &w) {
            return true;
        }
        if i == last {
            assert forall|j: int| 0 <= j && j + p@.len() <= s@.len() implies #[trigger] s@.subrange(j, j + p@.len()) != p@ by {
                assert(j <= i);
            }
            return false;
        }
        i = i + 1;
    }
}

/// The provider whose statement `all` is, by its content: Wenia's crypto
/// report, Plenti's transaction statement, or NU's CDT statement.
pub open spec fn detected_provider(all: Seq<char>) -> Option<Provider> {
    if contains_text(all, "Comportamiento de tus criptos"@) && contains_text(all, "Wenia"@) {
        Some(Provider::Wenia)
    } else if contains_text(all, "Extracto Transaccional"@) && contains_text(all, "SOMOS PLENTI"@) {
        Some(Provider::Plenti)
    } else if (contains_text(all, "Llegó tu extracto"@) || contains_text(all, "Llego tu extracto"@))
        && contains_text(all, "CDT Nu"@) {
        Some(Provider::Nu)
    } else {
        None
    }
}

/// The events a provider's parser reads from a document, before duplicates
/// are dropped: `lines` as extracted, `rows` grouped into logical rows.
pub open spec fn provider_events(
    provider: Provider,
    source: Seq<char>,
    lines: Seq<TextLine>,
    rows: Seq<TextLine>,
) -> Seq<EventView> {
    match provider {
        Provider::Nu => match document_year(lines) {
            Some(year) => nu_events(source, year, positioned_rows(rows)) + nu_events(
                source,
                year,
                linear_rows(nu_matches(lines)),
            ),
            None => Seq::empty(),
        },
        Provider::Plenti => row_events(
            source,
            Provider::Plenti,
            rows,
            Seq::new(rows.len() as nat, |i: int| plenti_row(rows[i].text@)),
            rows.len() as nat,
        ),
        Provider::Wenia => row_events(
            source,
            Provider::Wenia,
            rows,
            Seq::new(rows.len() as nat, |i: int| wenia_row(wenia_date(lines_joined(rows, " "@)), rows[i].text@)),
            rows.len() as nat,
        ),
    }
}

/// Some event of `evs` has fingerprint `fp`.
pub open spec fn has_fingerprint(evs: Seq<EventView>, fp: Seq<char>) -> bool {
    exists|j: int| 0 <= j < evs.len() && (#[trigger] evs[j]).fingerprint == fp
}

/// `evs` keeping only the first event of each fingerprint.
pub open spec fn first_of_each(evs: Seq<EventView>) -> Seq<EventView>
    decreases evs.len(),
{
    if evs.len() == 0 {
        Seq::empty()
    } else {
        let before = first_of_each(evs.drop_last());
        if has_fingerprint(before, evs.last().fingerprint) {
            before
        } else {
            before.push(evs.last())
        }
    }
}

fn fingerprint_seen(kept: &Vec<ProviderEvent>, fp: &str) -> (r: bool)
    ensures
        r == has_fingerprint(events_view(kept@), fp@),
{
    let mut j: usize = 0;
    while j < kept.len()
        invariant
            j <= kept.len(),
            forall|k: int| 0 <= k < j ==> kept@[k].fingerprint@ != fp@,
        decreases kept.len() - j,
    {
        if str_eq(kept[j].fingerprint.as_str(), fp) {
            assert(events_view(kept@)[j as int].fingerprint == fp@);
            return true;
        }
        j = j + 1;
    }
    assert forall|k: int| 0 <= k < events_view(kept@).len() implies (#[trigger] events_view(kept@)[k]).fingerprint != fp@ by {
        assert(events_view(kept@)[k] == event_view(kept@[k]));
    }
    false
}

/// Drops every event whose fingerprint an earlier event has.
fn keep_first_of_each(events: Vec<ProviderEvent>) -> (r: Vec<ProviderEvent>)
    requires
        forall|i: int| 0 <= i < events.len() ==> fresh(#[trigger] events@[i]),
    ensures
        events_view(r@) == first_of_each(events_view(events@)),
        forall|i: int| 0 <= i < r.len() ==> fresh(#[trigger] r@[i]),
{
    let ghost all = events_view(events@);
    let ghost n = events.len() as int;
    let mut rest = events;
    let mut kept: Vec<ProviderEvent> = Vec::new();
    let ghost mut i: int = 0;
    assert(all.subrange(0, 0) =~= Seq::<EventView>::empty());
    assert(events_view(rest@) =~= all.subrange(0, n));
    while rest.len() > 0
        invariant
            0 <= i <= n == all.len(),
            rest.len() == n - i,
            events_view(rest@) == all.subrange(i, n),
            forall|k: int| 0 <= k < rest.len() ==> fresh(#[trigger] rest@[k]),
            events_view(kept@) == first_of_each(all.subrange(0, i)),
            forall|k: int| 0 <= k < kept.len() ==> fresh(#[trigger] kept@[k]),
        decreases rest.len(),
    {
        let ghost before_rest = rest@;
        let e = rest.remove(0);
        proof {
            assert(e == before_rest[0]);
            assert(events_view(before_rest)[0] == event_view(before_rest[0]));
            assert(all.subrange(i, n)[0] == all[i]);
            assert(event_view(e) == all[i]);
            assert(fresh(before_rest[0]));
            assert(events_view(rest@) =~= all.subrange(i + 1, n)) by {
                assert forall|k: int| 0 <= k < rest@.len() implies #[trigger] events_view(rest@)[k] == all.subrange(i + 1, n)[k] by {
                    assert(rest@[k] == before_rest[k + 1]);
                    assert(events_view(before_rest)[k + 1] == all.subrange(i, n)[k + 1]);
                }
            }
            assert forall|k: int| 0 <= k < rest.len() implies fresh(#[trigger] rest@[k]) by {
                assert(rest@[k] == before_rest[k + 1]);
            }
            let next = all.subrange(0, i + 1);
            assert(next.drop_last() =~= all.subrange(0, i));
            assert(next.last() == all[i]);
        }
        let seen = fingerprint_seen(&kept, e.fingerprint.as_str());
        if !seen {
            kept.push(e);
            assert(events_view(kept@) =~= first_of_each(all.subrange(0, i)).push(event_view(e)));
        }
        proof {
            i = i + 1;
        }
    }
    assert(all.subrange(0, n) =~= all);
    kept
}

/// Identifies the provider of a document by its content and reads its
/// events, dropping repeated fingerprints (the first event of each is
/// kept).  `lines` are the document's lines as extracted, `rows` the same
/// text grouped into logical rows.  An unknown provider, or a known one with
/// no readable row, is an error.
pub fn detect_and_parse(
    source: &str,
    lines: &Vec<TextLine>,
    rows: &Vec<TextLine>,
) -> (r: Result<(Provider, Vec<ProviderEvent>), Error>)
    ensures
        match detected_provider(lines_joined(lines@, "\n"@)) {
            None => r matches Err(e) && is_document_error(
                e,
                "unsupported_document"@,
                "parser"@,
                "No supported investment-provider format matched document content."@,
            ),
            Some(p) => {
                let evs = first_of_each(provider_events(p, source@, lines@, rows@));
                if evs.len() == 0 {
                    r matches Err(e) && is_document_error(
                        e,
                        "partially_recognized_document"@,
                        "events"@,
                        "Provider matched but no sufficiently supported rows were found."@,
                    )
                } else {
                    &&& r matches Ok((q, found)) && q == p && events_view(found@) == evs
                    &&& r matches Ok((q, found)) ==> forall|i: int| 0 <= i < found.len() ==> fresh(#[trigger] found@[i])
                }
            },
        },
{
    let all = join_lines(lines, "\n");
    let t = all.as_str();
    let provider = if contains_str(t, "Comportamiento de tus criptos") && contains_str(t, "Wenia") {
        Provider::Wenia
    } else if contains_str(t, "Extracto Transaccional") && contains_str(t, "SOMOS PLENTI") {
        Provider::Plenti
    } else if (contains_str(t, "Llegó tu extracto") || contains_str(t, "Llego tu extracto")) && contains_str(t, "CDT Nu") {
        Provider::Nu
    } else {
        return Err(
            document_error(
                "unsupported_document",
                "parser",
                "No supported investment-provider format matched document content.",
            ),
        );
    };
    let events = match provider {
        Provider::Nu => parse_nu(source, lines, rows),
        Provider::Plenti => parse_plenti(source, rows),
        Provider::Wenia => parse_wenia(source, rows),
    };
    let kept = keep_first_of_each(events);
    if kept.len() == 0 {
        return Err(
            document_error(
                "partially_recognized_document",
                "events",
                "Provider matched but no sufficiently supported rows were found.",
            ),
        );
    }
    Ok((provider, kept))
}

/// `e` was read by `p`'s parser from document `source`, and its evidence
/// is a text with its digits hidden.
pub open spec fn read_from(e: EventView, p: Provider, source: Seq<char>) -> bool {
    &&& e.provider == p
    &&& e.source == source
    &&& exists|t: Seq<char>| e.evidence == #[trigger] digits_hidden(t)
}

proof fn lemma_nu_events_read_from(source: Seq<char>, year: Seq<char>, rows: Seq<(usize, usize, Seq<char>)>)
    ensures
        forall|i: int| 0 <= i < nu_events(source, year, rows).len() ==> read_from(
            #[trigger] nu_events(source, year, rows)[i], Provider::Nu, source),
    decreases rows.len(),
{
    if rows.len() > 0 {
        lemma_nu_events_read_from(source, year, rows.drop_last());
        let before = nu_events(source, year, rows.drop_last());
        if let Some(e) = nu_event(source, year, rows.last()) {
            let whole = group_of(NU_MOVEMENT_PATTERN@, rows.last().2, 0)->0;
            assert(e.evidence == digits_hidden(whole));
            assert(read_from(e, Provider::Nu, source));
            assert forall|i: int| 0 <= i < before.push(e).len() implies read_from(#[trigger] before.push(e)[i], Provider::Nu,
                source) by {
                if i < before.len() {
                    assert(before.push(e)[i] == before[i]);
                }
            }
        }
    }
}

proof fn lemma_row_events_read_from(
    source: Seq<char>,
    provider: Provider,
    lines: Seq<TextLine>,
    parsed: Seq<Option<RowView>>,
    n: nat,
)
    ensures
        forall|i: int| 0 <= i < row_events(source, provider, lines, parsed, n).len() ==> read_from(
            #[trigger] row_events(source, provider, lines, parsed, n)[i], provider, source),
    decreases n,
{
    if n > 0 {
        lemma_row_events_read_from(source, provider, lines, parsed, (n - 1) as nat);
        let before = row_events(source, provider, lines, parsed, (n - 1) as nat);
        if let Some(row) = parsed[n - 1] {
            let e = row_event(source, provider, lines[n - 1], n - 1, row);
            assert(e.evidence == digits_hidden(lines[n - 1].text@));
            assert forall|i: int| 0 <= i < before.push(e).len() implies read_from(#[trigger] before.push(e)[i], provider,
                source) by {
                if i < before.len() {
                    assert(before.push(e)[i] == before[i]);
                }
            }
        }
    }
}

proof fn lemma_first_of_each_kept(evs: Seq<EventView>, p: Provider, source: Seq<char>)
    requires
        forall|i: int| 0 <= i < evs.len() ==> read_from(#[trigger] evs[i], p, source),
    ensures
        forall|i: int| 0 <= i < first_of_each(evs).len() ==> read_from(#[trigger] first_of_each(evs)[i], p, source),
    decreases evs.len(),
{
    if evs.len() > 0 {
        let pre = evs.drop_last();
        assert forall|i: int| 0 <= i < pre.len() implies read_from(#[trigger] pre[i], p, source) by {
            assert(pre[i] == evs[i]);
        }
        lemma_first_of_each_kept(pre, p, source);
        let before = first_of_each(pre);
        if !has_fingerprint(before, evs.last().fingerprint) {
            assert(read_from(evs[evs.len() - 1], p, source));
            assert forall|i: int| 0 <= i < before.push(evs.last()).len() implies read_from(
                #[trigger] before.push(evs.last())[i], p, source) by {
                if i < before.len() {
                    assert(before.push(evs.last())[i] == before[i]);
                }
            }
        }
    }
}

/// Every event a document yields names the provider its content was
/// recognised as and the document it was read from, and its evidence is a
/// text with its digits hidden.
pub proof fn law_events_are_read_from_the_document(p: Provider, source: Seq<char>, lines: Seq<TextLine>, rows: Seq<TextLine>)
    ensures
        forall|i: int| 0 <= i < first_of_each(provider_events(p, source, lines, rows)).len() ==> read_from(
            #[trigger] first_of_each(provider_events(p, source, lines, rows))[i], p, source),
{
    let evs = provider_events(p, source, lines, rows);
    match p {
        Provider::Nu => {
            if let Some(year) = document_year(lines) {
                let a = nu_events(source, year, positioned_rows(rows));
                let b = nu_events(source, year, linear_rows(nu_matches(lines)));
                lemma_nu_events_read_from(source, year, positioned_rows(rows));
                lemma_nu_events_read_from(source, year, linear_rows(nu_matches(lines)));
                assert forall|i: int| 0 <= i < (a + b).len() implies read_from(#[trigger] (a + b)[i], p, source) by {
                    if i < a.len() {
                        assert((a + b)[i] == a[i]);
                    } else {
                        assert((a + b)[i] == b[i - a.len()]);
                    }
                }
            }
        },
        Provider::Plenti => {
            lemma_row_events_read_from(source, Provider::Plenti, rows, Seq::new(rows.len() as nat, |i: int| plenti_row(
                rows[i].text@)), rows.len() as nat);
        },
        Provider::Wenia => {
            lemma_row_events_read_from(source, Provider::Wenia, rows, Seq::new(rows.len() as nat, |i: int| wenia_row(
                wenia_date(lines_joined(rows, " "@)), rows[i].text@)), rows.len() as nat);
        },
    }
    lemma_first_of_each_kept(evs, p, source);
}

/// Events that survive duplicate removal have pairwise distinct
/// fingerprints: a movement seen twice (in the text stream and in the
/// layout, or on two identical rows) is proposed once.
pub proof fn law_kept_events_have_distinct_fingerprints(evs: Seq<EventView>)
    ensures
        forall|i: int, j: int|
            0 <= i < j < first_of_each(evs).len() ==> (#[trigger] first_of_each(evs)[i]).fingerprint
                != (#[trigger] first_of_each(evs)[j]).fingerprint,
    decreases evs.len(),
{
    if evs.len() > 0 {
        law_kept_events_have_distinct_fingerprints(evs.drop_last());
        let before = first_of_each(evs.drop_last());
        if !has_fingerprint(before, evs.last().fingerprint) {
            let after = first_of_each(evs);
            assert(after == before.push(evs.last()));
            assert forall|i: int, j: int| 0 <= i < j < after.len() implies (#[trigger] after[i]).fingerprint
                != (#[trigger] after[j]).fingerprint by {
                if j == after.len() - 1 {
                    assert(after[i] == before[i]);
                    if after[i].fingerprint == evs.last().fingerprint {
                        assert(has_fingerprint(before, evs.last().fingerprint));
                    }
                } else {
                    assert(after[i] == before[i]);
                    assert(after[j] == before[j]);
                }
            }
        }
    }
}

/// Duplicate removal keeps an event for every fingerprint it was given.
pub proof fn law_every_fingerprint_is_kept(evs: Seq<EventView>)
    ensures
        forall|i: int| 0 <= i < evs.len() ==> has_fingerprint(first_of_each(evs), #[trigger] evs[i].fingerprint),
    decreases evs.len(),
{
    if evs.len() > 0 {
        law_every_fingerprint_is_kept(evs.drop_last());
        let before = first_of_each(evs.drop_last());
        let after = first_of_each(evs);
        assert forall|i: int| 0 <= i < evs.len() implies has_fingerprint(after, #[trigger] evs[i].fingerprint) by {
            if i < evs.len() - 1 {
                assert(evs[i] == evs.drop_last()[i]);
                assert(has_fingerprint(before, evs.drop_last()[i].fingerprint));
                let k = choose|k: int| 0 <= k < before.len() && (#[trigger] before[k]).fingerprint == evs[i].fingerprint;
                if !has_fingerprint(before, evs.last().fingerprint) {
                    assert(after[k] == before[k]);
                }
                assert(after[k].fingerprint == evs[i].fingerprint);
            } else {
                if has_fingerprint(before, evs.last().fingerprint) {
                    let k = choose|k: int| 0 <= k < before.len() && (#[trigger] before[k]).fingerprint == evs.last().fingerprint;
                    assert(after[k].fingerprint == evs[i].fingerprint);
                } else {
                    assert(after[after.len() - 1] == evs.last());
                }
            }
        }
    }
}

} // verus!
