//! Command-line values with a grammar of their own: expense lines
//! (`CATEGORY_ID:AMOUNT_MINOR:CURRENCY`) and batch review actions.
use vstd::prelude::*;
use crate::documents::{parse_i64, split_char, split_on};
use crate::ids::{ascii_upper, to_ascii_uppercase};
use crate::review::owned;
use crate::text::{find_char, find_char_in, lemma_find_char, std_parse_signed, str_eq, string_of, to_chars, trim_bounds, trim_seq};

verus! {

/// One expense line of a reviewed candidate.
#[derive(Debug, Clone, PartialEq, Eq)]
pub struct ExpenseLineInput {
    pub category_id: String,
    pub amount_minor: i64,
    pub currency: String,
}

/// A refused command-line value: the error code, message and argument, and
/// the value as given.
#[derive(Debug, Clone, PartialEq, Eq)]
pub struct ArgError {
    pub code: &'static str,
    pub message: &'static str,
    pub path: &'static str,
    pub value: String,
}

/// The parts of an expense line: category, amount and currency (ASCII
/// upper-cased).  The category ends at the first `:` and the amount at the
/// next; the amount is an `i64` as the standard library parses it; neither
/// category nor currency may be blank.
pub open spec fn expense_line(raw: Seq<char>) -> Option<(Seq<char>, int, Seq<char>)> {
    let i = find_char(raw, ':');
    if i < 0 {
        None
    } else {
        let category = raw.subrange(0, i);
        let rest = raw.subrange(i + 1, raw.len() as int);
        let j = find_char(rest, ':');
        if j < 0 {
            None
        } else {
            let amount = rest.subrange(0, j);
            let currency = rest.subrange(j + 1, rest.len() as int);
            match std_parse_signed(amount, i64::MIN as int, i64::MAX as int) {
                Some(a) => if trim_seq(category).len() == 0 || trim_seq(currency).len() == 0 {
                    None
                } else {
                    Some((category, a, ascii_upper(currency)))
                },
                None => None,
            }
        }
    }
}

/// `line` holds the parts `parts`.
pub open spec fn line_is(line: ExpenseLineInput, parts: (Seq<char>, int, Seq<char>)) -> bool {
    line.category_id@ == parts.0 && line.amount_minor as int == parts.1 && line.currency@ == parts.2
}

/// Whether `s` is empty once trimmed.
fn blank(s: &str) -> (r: bool)
    ensures
        r == (trim_seq(s@).len() == 0),
{
    let v = to_chars(s);
    let (lo, hi) = trim_bounds(&v);
    lo == hi
}

/// The error for a malformed expense line.
pub open spec fn is_invalid_line(e: ArgError, raw: Seq<char>) -> bool {
    &&& e.code@ == "invalid_expense_line"@
    &&& e.message@ == "Expense lines must use CATEGORY_ID:AMOUNT_MINOR:CURRENCY."@
    &&& e.path@ == "lines"@
    &&& e.value@ == raw
}

fn invalid_line(raw: &str) -> (e: ArgError)
    ensures
        is_invalid_line(e, raw@),
{
    ArgError {
        code: "invalid_expense_line",
        message: "Expense lines must use CATEGORY_ID:AMOUNT_MINOR:CURRENCY.",
        path: "lines",
        value: owned(raw),
    }
}

/// Reads an expense line `CATEGORY_ID:AMOUNT_MINOR:CURRENCY` (see
/// `expense_line`).
pub fn parse_expense_line(raw_line: &str) -> (r: Result<ExpenseLineInput, ArgError>)
    ensures
        match expense_line(raw_line@) {
            Some(parts) => r matches Ok(line) && line_is(line, parts),
            None => r matches Err(e) && is_invalid_line(e, raw_line@),
        },
{
    let v = to_chars(raw_line);
    let n = v.len();
    assert(v@.subrange(0, n as int) =~= raw_line@);
    proof {
        lemma_find_char(raw_line@, ':');
    }
    let i = match find_char_in(&v, 0, n, ':') {
        Some(i) => i,
        None => return Err(invalid_line(raw_line)),
    };
    let category = string_of(&v, 0, i);
    let ghost rest = raw_line@.subrange(i + 1, n as int);
    proof {
        lemma_find_char(rest, ':');
    }
    let j = match find_char_in(&v, i + 1, n, ':') {
        Some(j) => j,
        None => return Err(invalid_line(raw_line)),
    };
    assert(rest.subrange(0, j as int) =~= v@.subrange(i + 1, i + 1 + j));
    assert(rest.subrange(j + 1, rest.len() as int) =~= v@.subrange(i + 1 + j + 1, n as int));
    let amount = match parse_i64(&v, i + 1, i + 1 + j) {
        Some(a) => a,
        None => return Err(invalid_line(raw_line)),
    };
    let currency = string_of(&v, i + 1 + j + 1, n);
    if blank(category.as_str()) || blank(currency.as_str()) {
        return Err(invalid_line(raw_line));
    }
    Ok(ExpenseLineInput { category_id: category, amount_minor: amount, currency: to_ascii_uppercase(currency.as_str()) })
}

/// The error for giving both a category and expense lines.
pub open spec fn is_both_given(e: ArgError) -> bool {
    &&& e.code@ == "expense_category_or_lines_required"@
    &&& e.message@ == "Use either --category-id or one or more --line values, not both."@
    &&& e.path@ == "category_id"@
}

/// The error for giving neither a category nor expense lines.
pub open spec fn is_none_given(e: ArgError) -> bool {
    &&& e.code@ == "expense_lines_required"@
    &&& e.message@ == "Provide --category-id or at least one --line value."@
    &&& e.path@ == "lines"@
}

/// The expense lines of a review command: one line for the whole amount
/// in `category_id` (amount and currency left for the review to fill), or
/// one per `--line` value; exactly one of the two must be given, and every
/// line must parse (the first that does not is reported).
pub fn expense_lines_from_args(category_id: Option<String>, raw_lines: Vec<String>) -> (r: Result<
    Vec<ExpenseLineInput>,
    ArgError,
>)
    ensures
        category_id is Some && raw_lines.len() > 0 ==> (r matches Err(e) && is_both_given(e)),
        raw_lines.len() == 0 ==> (category_id matches Some(c) ==> (r matches Ok(lines) && lines.len() == 1
            && lines@[0].category_id@ == c@ && lines@[0].amount_minor == 0 && lines@[0].currency@ == Seq::<char>::empty())),
        category_id is None && raw_lines.len() == 0 ==> (r matches Err(e) && is_none_given(e)),
        category_id is None && raw_lines.len() > 0 ==> match r {
            Ok(lines) => lines.len() == raw_lines.len() && forall|k: int| 0 <= k < raw_lines.len() ==> ((#[trigger] expense_line(raw_lines@[k]@)) matches Some(p) && line_is(lines@[k], p)),
            Err(e) => exists|k: int| 0 <= k < raw_lines.len() && (#[trigger] expense_line(raw_lines@[k]@)) is None
                && is_invalid_line(e, raw_lines@[k]@)
                && forall|m: int| 0 <= m < k ==> #[trigger] expense_line(raw_lines@[m]@) is Some,
        },
{
    if category_id.is_some() && raw_lines.len() > 0 {
        return Err(ArgError {
            code: "expense_category_or_lines_required",
            message: "Use either --category-id or one or more --line values, not both.",
            path: "category_id",
            value: String::new(),
        });
    }
    if let Some(category) = category_id {
        let mut lines: Vec<ExpenseLineInput> = Vec::new();
        lines.push(ExpenseLineInput { category_id: category, amount_minor: 0, currency: String::new() });
        return Ok(lines);
    }
    if raw_lines.len() == 0 {
        return Err(ArgError {
            code: "expense_lines_required",
            message: "Provide --category-id or at least one --line value.",
            path: "lines",
            value: String::new(),
        });
    }
    let mut lines: Vec<ExpenseLineInput> = Vec::new();
    let mut k: usize = 0;
    while k < raw_lines.len()
        invariant
            k <= raw_lines.len(),
            category_id is None,
            raw_lines.len() > 0,
            lines.len() == k,
            forall|m: int| 0 <= m < k ==> ((#[trigger] expense_line(raw_lines@[m]@)) matches Some(p) && line_is(lines@[m], p)),
        decreases raw_lines.len() - k,
    {
        match parse_expense_line(raw_lines[k].as_str()) {
            Ok(line) => lines.push(line),
            Err(e) => {
                assert(expense_line(raw_lines@[k as int]@) is None);
                return Err(e);
            },
        }
        k = k + 1;
    }
    Ok(lines)
}

/// A batch review action.
#[derive(Debug, Clone, PartialEq, Eq)]
pub enum BatchActionRequest {
    RejectDuplicate { candidate_id: String },
    AcceptTransferPair { from_candidate_id: String, to_candidate_id: String },
}

impl BatchActionRequest {
    /// Rejects a candidate as a duplicate.
    pub fn reject_duplicate(candidate_id: String) -> (r: Self)
        ensures
            r matches BatchActionRequest::RejectDuplicate { candidate_id: c } && c@ == candidate_id@,
    {
        BatchActionRequest::RejectDuplicate { candidate_id }
    }

    /// Accepts two candidates as the two sides of one transfer.
    pub fn accept_transfer_pair(from_candidate_id: String, to_candidate_id: String) -> (r: Self)
        ensures
            r matches BatchActionRequest::AcceptTransferPair { from_candidate_id: f, to_candidate_id: t } && f@
                == from_candidate_id@ && t@ == to_candidate_id@,
    {
        BatchActionRequest::AcceptTransferPair { from_candidate_id, to_candidate_id }
    }
}

/// Names of the duplicate rejection action.
pub open spec fn is_reject_name(s: Seq<char>) -> bool {
    s == "reject-duplicate"@ || s == "reject_duplicate"@
}

/// Names of the transfer pair action.
pub open spec fn is_pair_name(s: Seq<char>) -> bool {
    s == "accept-transfer-pair"@ || s == "accept_transfer_pair"@
}

/// What a batch action reads as: `reject-duplicate:ID` or
/// `accept-transfer-pair:FROM:TO` (either with `_`), with non-empty ids;
/// `Err` with the error code otherwise: a known action with missing or
/// empty ids, or an unknown one.
pub open spec fn batch_action(raw: Seq<char>) -> Result<(bool, Seq<char>, Seq<char>), Seq<char>> {
    let parts = split_on(raw, ':');
    if parts.len() == 2 && is_reject_name(parts[0]) && parts[1].len() > 0 {
        Ok((true, parts[1], Seq::empty()))
    } else if parts.len() == 3 && is_pair_name(parts[0]) && parts[1].len() > 0 && parts[2].len() > 0 {
        Ok((false, parts[1], parts[2]))
    } else if parts.len() >= 1 && (is_reject_name(parts[0]) || is_pair_name(parts[0])) {
        Err("candidate_ids_required"@)
    } else {
        Err("invalid_batch_action"@)
    }
}

/// `r` is the batch action `raw` reads as, or its error for `raw`.
pub open spec fn batch_action_result(raw: Seq<char>, r: Result<BatchActionRequest, ArgError>) -> bool {
    match batch_action(raw) {
        Ok((true, id, _)) => r matches Ok(BatchActionRequest::RejectDuplicate { candidate_id: c }) && c@ == id,
        Ok((false, from, to)) => r matches Ok(BatchActionRequest::AcceptTransferPair { from_candidate_id: f, to_candidate_id: t }) && f@ == from
            && t@ == to,
        Err(code) => r matches Err(e) && e.code@ == code && e.path@ == "actions"@ && e.value@ == raw && e.message@ == (
        if code == "candidate_ids_required"@ {
            "Batch actions require explicit candidate ids."@
        } else {
            "Batch action must be reject-duplicate:CANDIDATE_ID or accept-transfer-pair:FROM_ID:TO_ID."@
        }),
    }
}

fn string_of_chars(v: &Vec<char>) -> (r: String)
    ensures
        r@ == v@,
{
    let r = string_of(v, 0, v.len());
    assert(v@.subrange(0, v.len() as int) =~= v@);
    r
}

/// Reads one batch action (see `batch_action`).
pub fn parse_batch_action(raw_action: &str) -> (r: Result<BatchActionRequest, ArgError>)
    ensures
        batch_action_result(raw_action@, r),
{
    let v = to_chars(raw_action);
    let parts = split_char(&v, ':');
    let ghost ps = split_on(raw_action@, ':');
    assert(ps.len() == parts.len());
    let first = if parts.len() >= 1 { string_of_chars(&parts[0]) } else { String::new() };
    assert(parts.len() >= 1 ==> first@ == ps[0]);
    assert(parts.len() >= 2 ==> parts@[1]@ == ps[1]);
    assert(parts.len() >= 3 ==> parts@[2]@ == ps[2]);
    let is_reject = parts.len() >= 1 && (str_eq(first.as_str(), "reject-duplicate") || str_eq(first.as_str(), "reject_duplicate"));
    let is_pair = parts.len() >= 1 && (str_eq(first.as_str(), "accept-transfer-pair") || str_eq(first.as_str(), "accept_transfer_pair"));
    if parts.len() == 2 && is_reject && parts[1].len() > 0 {
        return Ok(BatchActionRequest::reject_duplicate(string_of_chars(&parts[1])));
    }
    if parts.len() == 3 && is_pair && parts[1].len() > 0 && parts[2].len() > 0 {
        return Ok(BatchActionRequest::accept_transfer_pair(string_of_chars(&parts[1]), string_of_chars(&parts[2])));
    }
    if is_reject || is_pair {
        return Err(ArgError {
            code: "candidate_ids_required",
            message: "Batch actions require explicit candidate ids.",
            path: "actions",
            value: owned(raw_action),
        });
    }
    assert("invalid_batch_action"@ != "candidate_ids_required"@) by {
        reveal_strlit("invalid_batch_action");
        reveal_strlit("candidate_ids_required");
        assert("invalid_batch_action"@.len() != "candidate_ids_required"@.len());
    }
    Err(ArgError {
        code: "invalid_batch_action",
        message: "Batch action must be reject-duplicate:CANDIDATE_ID or accept-transfer-pair:FROM_ID:TO_ID.",
        path: "actions",
        value: owned(raw_action),
    })
}

/// Reads every batch action; the first that does not read is reported.
pub fn parse_batch_actions(raw_actions: &Vec<String>) -> (r: Result<Vec<BatchActionRequest>, ArgError>)
    ensures
        match r {
            Ok(actions) => actions.len() == raw_actions.len() && forall|k: int| 0 <= k < raw_actions.len() ==> batch_action_result(
                #[trigger] raw_actions@[k]@,
                Ok(actions@[k]),
            ),
            Err(e) => exists|k: int| 0 <= k < raw_actions.len() && batch_action_result(#[trigger] raw_actions@[k]@, Err(e)),
        },
{
    let mut actions: Vec<BatchActionRequest> = Vec::new();
    let mut k: usize = 0;
    while k < raw_actions.len()
        invariant
            k <= raw_actions.len(),
            actions.len() == k,
            forall|m: int| 0 <= m < k ==> batch_action_result(#[trigger] raw_actions@[m]@, Ok(actions@[m])),
        decreases raw_actions.len() - k,
    {
        match parse_batch_action(raw_actions[k].as_str()) {
            Ok(a) => actions.push(a),
            Err(e) => return Err(e),
        }
        k = k + 1;
    }
    Ok(actions)
}

} // verus!
