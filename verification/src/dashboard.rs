//! The dashboard's request handling: decoding query strings into filter and
//! drill-down requests, and the checks a request must pass.
use vstd::prelude::*;
use vstd::utf8::{decode_utf8, encode_utf8, valid_utf8};
use crate::documents::{split_char, split_on};
use crate::text::{all_digits, find_char, find_char_in, is_ascii_digit, is_digit, lemma_digits_value_nonneg, parse_digits, std_parse_unsigned, str_eq, string_of, to_chars};
use crate::cdt::copy_opt;
use chrono::Datelike;
use crate::dates::days_in_month;
use crate::finance::{chrono_year, chrono_year_text, chrono_ymd, parse_ymd, ymd_le, zero_padded, DrillMetric, DrillRequest, FinanceFilterRequest};
use crate::review::owned;

verus! {

/// The value of an ASCII hexadecimal digit.
pub open spec fn hex_digit_value(b: u8) -> Option<u8> {
    if 48 <= b <= 57 {
        Some((b - 48) as u8)
    } else if 97 <= b <= 102 {
        Some((b - 97 + 10) as u8)
    } else if 65 <= b <= 70 {
        Some((b - 65 + 10) as u8)
    } else {
        None
    }
}

/// The value of an ASCII hexadecimal digit, either case.
pub fn hex_value(value: u8) -> (r: Option<u8>)
    ensures
        r == hex_digit_value(value),
{
    if value >= 48 && value <= 57 {
        Some(value - 48)
    } else if value >= 97 && value <= 102 {
        Some(value - 97 + 10)
    } else if value >= 65 && value <= 70 {
        Some(value - 65 + 10)
    } else {
        None
    }
}

/// The bytes a URL query component stands for: `%hh` is the byte with hex
/// value `hh` (both digits required), `+` is a space, any other ASCII byte
/// stands for itself; a non-ASCII byte or a truncated escape makes the
/// component invalid.
pub open spec fn percent_decoded(src: Seq<u8>) -> Option<Seq<u8>>
    decreases src.len(),
{
    if src.len() == 0 {
        Some(Seq::<u8>::empty())
    } else if src[0] == 37 {
        if 2 < src.len() {
            match (hex_digit_value(src[1]), hex_digit_value(src[2])) {
                (Some(h), Some(l)) => match percent_decoded(src.subrange(3, src.len() as int)) {
                    Some(rest) => Some(seq![(h * 16 + l) as u8] + rest),
                    None => None,
                },
                _ => None,
            }
        } else {
            None
        }
    } else if src[0] == 43 {
        match percent_decoded(src.drop_first()) {
            Some(rest) => Some(seq![32u8] + rest),
            None => None,
        }
    } else if src[0] < 128 {
        match percent_decoded(src.drop_first()) {
            Some(rest) => Some(seq![src[0]] + rest),
            None => None,
        }
    } else {
        None
    }
}

/// The text a query component stands for: its decoded bytes read as
/// UTF-8; `None` when the escapes are malformed or the bytes are not UTF-8.
pub open spec fn decoded_component(value: Seq<char>) -> Option<Seq<char>> {
    match percent_decoded(encode_utf8(value)) {
        Some(b) => if valid_utf8(b) {
            Some(decode_utf8(b))
        } else {
            None
        },
        None => None,
    }
}

/// Calls `String::from_utf8`.  Claimed, as its documentation states: it
/// succeeds exactly when the bytes are valid UTF-8, with the text they
/// encode.
#[verifier::external_body]
fn string_from_utf8(bytes: Vec<u8>) -> (r: Option<String>)
    ensures
        match r {
            Some(s) => valid_utf8(bytes@) && s@ == decode_utf8(bytes@),
            None => !valid_utf8(bytes@),
        },
{
    String::from_utf8(bytes).ok()
}

/// Decodes one URL query component (see `decoded_component`).
pub fn decode_query_component(value: &str) -> (r: Result<String, ()>)
    ensures
        match r {
            Ok(s) => decoded_component(value@) == Some(s@),
            Err(_) => decoded_component(value@) is None,
        },
{
    let source = value.as_bytes();
    let ghost src = source@;
    assert(src == encode_utf8(value@));
    let n = source.len();
    let mut bytes: Vec<u8> = Vec::new();
    let mut index: usize = 0;
    assert(src.subrange(0, n as int) =~= src);
    while index < n
        invariant
            index <= n == source@.len(),
            src == source@,
            src == encode_utf8(value@),
            match percent_decoded(src.subrange(index as int, n as int)) {
                Some(rest) => percent_decoded(src) == Some(bytes@ + rest),
                None => percent_decoded(src) is None,
            },
        decreases n - index,
    {
        let ghost suffix = src.subrange(index as int, n as int);
        let b = source[index];
        assert(suffix[0] == b);
        if b == 37 {
            if n - index > 2 {
                assert(suffix[1] == source@[index + 1]);
                assert(suffix[2] == source@[index + 2]);
                assert(suffix.subrange(3, suffix.len() as int) =~= src.subrange(index + 3, n as int));
                let high = match hex_value(source[index + 1]) {
                    Some(h) => h,
                    None => return Err(()),
                };
                let low = match hex_value(source[index + 2]) {
                    Some(l) => l,
                    None => return Err(()),
                };
                let byte = high * 16 + low;
                proof {
                    let old_bytes = bytes@;
                    match percent_decoded(src.subrange(index + 3, n as int)) {
                        Some(rest) => {
                            assert(old_bytes + (seq![byte] + rest) =~= old_bytes.push(byte) + rest);
                        },
                        None => {},
                    }
                }
                bytes.push(byte);
                index = index + 3;
            } else {
                return Err(());
            }
        } else if b == 43 {
            assert(suffix.drop_first() =~= src.subrange(index + 1, n as int));
            proof {
                let old_bytes = bytes@;
                match percent_decoded(src.subrange(index + 1, n as int)) {
                    Some(rest) => {
                        assert(old_bytes + (seq![32u8] + rest) =~= old_bytes.push(32u8) + rest);
                    },
                    None => {},
                }
            }
            bytes.push(32);
            index = index + 1;
        } else if b < 128 {
            assert(suffix.drop_first() =~= src.subrange(index + 1, n as int));
            proof {
                let old_bytes = bytes@;
                match percent_decoded(src.subrange(index + 1, n as int)) {
                    Some(rest) => {
                        assert(old_bytes + (seq![b] + rest) =~= old_bytes.push(b) + rest);
                    },
                    None => {},
                }
            }
            bytes.push(b);
            index = index + 1;
        } else {
            return Err(());
        }
    }
    assert(src.subrange(n as int, n as int) =~= Seq::<u8>::empty());
    assert(bytes@ + Seq::<u8>::empty() =~= bytes@);
    match string_from_utf8(bytes) {
        Some(s) => Ok(s),
        None => Err(()),
    }
}

/// A query key with the values given for it, in order.
pub open spec fn entry_view(e: (String, Vec<String>)) -> (Seq<char>, Seq<Seq<char>>) {
    (e.0@, e.1@.map_values(|s: String| s@))
}

/// The decoded query: each key with its values, keys in order of first
/// appearance.
pub open spec fn pairs_view(q: Seq<(String, Vec<String>)>) -> Seq<(Seq<char>, Seq<Seq<char>>)> {
    q.map_values(|e: (String, Vec<String>)| entry_view(e))
}

/// Position of key `k` in grouped pairs, or `-1`.
pub open spec fn key_index(g: Seq<(Seq<char>, Seq<Seq<char>>)>, k: Seq<char>) -> int
    decreases g.len(),
{
    if g.len() == 0 {
        -1
    } else if g.last().0 == k {
        g.len() - 1
    } else {
        key_index(g.drop_last(), k)
    }
}

/// Key/value pairs grouped by key: a repeated key gets the new value
/// appended to its list.
pub open spec fn grouped(ps: Seq<(Seq<char>, Seq<char>)>) -> Seq<(Seq<char>, Seq<Seq<char>>)>
    decreases ps.len(),
{
    if ps.len() == 0 {
        Seq::empty()
    } else {
        let g = grouped(ps.drop_last());
        let (k, v) = ps.last();
        let i = key_index(g, k);
        if i >= 0 {
            g.update(i, (k, g[i].1.push(v)))
        } else {
            g.push((k, seq![v]))
        }
    }
}

/// One `key=value` part of a query, both sides decoded; the key ends at the
/// first `=`.
pub open spec fn query_pair(part: Seq<char>) -> Option<(Seq<char>, Seq<char>)> {
    let k = find_char(part, '=');
    if k < 0 {
        None
    } else {
        match (decoded_component(part.subrange(0, k)), decoded_component(part.subrange(k + 1, part.len() as int))) {
            (Some(a), Some(b)) => Some((a, b)),
            _ => None,
        }
    }
}

/// The non-empty parts decoded, in order; `None` when any of them is
/// malformed.
pub open spec fn decoded_pairs(parts: Seq<Seq<char>>) -> Option<Seq<(Seq<char>, Seq<char>)>>
    decreases parts.len(),
{
    if parts.len() == 0 {
        Some(Seq::empty())
    } else if parts.last().len() == 0 {
        decoded_pairs(parts.drop_last())
    } else {
        match decoded_pairs(parts.drop_last()) {
            Some(ps) => match query_pair(parts.last()) {
                Some(p) => Some(ps.push(p)),
                None => None,
            },
            None => None,
        }
    }
}

/// Keys that may be given more than once.
pub open spec fn repeatable(k: Seq<char>) -> bool {
    k == "account"@ || k == "category"@
}

/// The text of an optional query string.
pub open spec fn query_text(q: Option<Seq<char>>) -> Seq<char> {
    match q {
        Some(s) => s,
        None => Seq::empty(),
    }
}

/// A decoded query string: its non-empty `&`-separated parts decoded and
/// grouped by key; `None` when a part is malformed or a key other than
/// `account` and `category` is not given exactly once.
pub open spec fn spec_query_pairs(q: Option<Seq<char>>) -> Option<Seq<(Seq<char>, Seq<Seq<char>>)>> {
    match decoded_pairs(split_on(query_text(q), '&')) {
        Some(ps) => {
            let g = grouped(ps);
            if forall|i: int| 0 <= i < g.len() && !repeatable(#[trigger] g[i].0) ==> g[i].1.len() == 1 {
                Some(g)
            } else {
                None
            }
        },
        None => None,
    }
}

proof fn lemma_decoded_none_extends(parts: Seq<Seq<char>>, i: int)
    requires
        0 <= i <= parts.len(),
        decoded_pairs(parts.subrange(0, i)) is None,
    ensures
        decoded_pairs(parts) is None,
    decreases parts.len() - i,
{
    if i < parts.len() {
        let next = parts.subrange(0, i + 1);
        assert(next.drop_last() =~= parts.subrange(0, i));
        assert(decoded_pairs(next) is None);
        lemma_decoded_none_extends(parts, i + 1);
    } else {
        assert(parts.subrange(0, i) =~= parts);
    }
}

/// Position of `key` in `out`, searching from the end.
fn find_key(out: &Vec<(String, Vec<String>)>, key: &str) -> (r: Option<usize>)
    ensures
        match r {
            Some(i) => i < out.len() && key_index(pairs_view(out@), key@) == i as int,
            None => key_index(pairs_view(out@), key@) == -1,
        },
{
    let mut j = out.len();
    assert(pairs_view(out@).subrange(0, j as int) =~= pairs_view(out@));
    while j > 0
        invariant
            j <= out.len(),
            key_index(pairs_view(out@), key@) == key_index(pairs_view(out@).subrange(0, j as int), key@),
        decreases j,
    {
        let ghost g = pairs_view(out@).subrange(0, j as int);
        assert(g.last() == entry_view(out@[j - 1]));
        assert(g.drop_last() =~= pairs_view(out@).subrange(0, j - 1));
        if str_eq(out[j - 1].0.as_str(), key) {
            return Some(j - 1);
        }
        j = j - 1;
    }
    None
}

/// Adds `value` under `key`.
fn add_pair(out: &mut Vec<(String, Vec<String>)>, key: String, value: String)
    ensures
        pairs_view(final(out)@) == ({
            let g = pairs_view(old(out)@);
            let i = key_index(g, key@);
            if i >= 0 {
                g.update(i, (key@, g[i].1.push(value@)))
            } else {
                g.push((key@, seq![value@]))
            }
        }),
{
    let ghost g = pairs_view(out@);
    match find_key(out, key.as_str()) {
        Some(i) => {
            let (k, mut values) = out.remove(i);
            let ghost old_values = values@;
            values.push(value);
            assert(values@.map_values(|s: String| s@) =~= old_values.map_values(|s: String| s@).push(value@));
            out.insert(i, (key, values));
            assert(pairs_view(out@) =~= g.update(i as int, (key@, g[i as int].1.push(value@))));
        },
        None => {
            let mut values: Vec<String> = Vec::new();
            values.push(value);
            assert(values@.map_values(|s: String| s@) =~= seq![value@]);
            out.push((key, values));
            assert(pairs_view(out@) =~= g.push((key@, seq![value@])));
        },
    }
}

/// Decodes a URL query string into its keys and values (see
/// `spec_query_pairs`); `Err` when it is malformed.
pub fn query_pairs(query: Option<&str>) -> (r: Result<Vec<(String, Vec<String>)>, ()>)
    ensures
        match spec_query_pairs(match query {
            Some(q) => Some(q@),
            None => None,
        }) {
            Some(g) => r matches Ok(out) && pairs_view(out@) == g,
            None => r is Err,
        },
{
    let text: &str = match query {
        Some(q) => q,
        None => "",
    };
    proof {
        reveal_strlit("");
    }
    let ghost q = match query {
        Some(q) => Some(q@),
        None => None::<Seq<char>>,
    };
    assert(text@ == query_text(q));
    let v = to_chars(text);
    let parts = split_char(&v, '&');
    let ghost all = split_on(text@, '&');
    let mut out: Vec<(String, Vec<String>)> = Vec::new();
    let ghost mut ps: Seq<(Seq<char>, Seq<char>)> = Seq::empty();
    let mut i: usize = 0;
    while i < parts.len()
        invariant
            i <= parts.len() == all.len(),
            all == split_on(text@, '&'),
            all == split_on(query_text(q), '&'),
            q == (match query {
                Some(x) => Some(x@),
                None => None::<Seq<char>>,
            }),
            forall|j: int| 0 <= j < parts.len() ==> (#[trigger] parts@[j])@ == all[j],
            decoded_pairs(all.subrange(0, i as int)) == Some(ps),
            pairs_view(out@) == grouped(ps),
        decreases parts.len() - i,
    {
        let ghost pre = all.subrange(0, i as int);
        let ghost next = all.subrange(0, i + 1);
        assert(next.drop_last() =~= pre);
        assert(next.last() == parts@[i as int]@);
        let part = &parts[i];
        if part.len() > 0 {
            let n = part.len();
            assert(part@.subrange(0, n as int) =~= part@);
            proof {
                crate::text::lemma_find_char(part@, '=');
            }
            let k = match find_char_in(part, 0, n, '=') {
                Some(k) => k,
                None => {
                    proof {
                        assert(query_pair(part@) is None);
                        assert(decoded_pairs(next) is None);
                        lemma_decoded_none_extends(all, i + 1);
                    }
                    return Err(());
                },
            };
            let key_text = string_of(part, 0, k);
            let value_text = string_of(part, k + 1, n);
            let key = match decode_query_component(key_text.as_str()) {
                Ok(x) => x,
                Err(_) => {
                    proof {
                        assert(query_pair(part@) is None);
                        assert(decoded_pairs(next) is None);
                        lemma_decoded_none_extends(all, i + 1);
                    }
                    return Err(());
                },
            };
            let value = match decode_query_component(value_text.as_str()) {
                Ok(x) => x,
                Err(_) => {
                    proof {
                        assert(query_pair(part@) is None);
                        assert(decoded_pairs(next) is None);
                        lemma_decoded_none_extends(all, i + 1);
                    }
                    return Err(());
                },
            };
            proof {
                assert(query_pair(part@) == Some((key@, value@)));
                assert(ps.push((key@, value@)).drop_last() =~= ps);
                assert(ps.push((key@, value@)).last() == (key@, value@));
            }
            add_pair(&mut out, key, value);
            proof {
                ps = ps.push((key@, value@));
            }
        }
        i = i + 1;
    }
    assert(all.subrange(0, parts.len() as int) =~= all);
    let mut j: usize = 0;
    while j < out.len()
        invariant
            j <= out.len(),
            pairs_view(out@) == grouped(ps),
            decoded_pairs(split_on(query_text(q), '&')) == Some(ps),
            q == (match query {
                Some(x) => Some(x@),
                None => None::<Seq<char>>,
            }),
            forall|m: int| 0 <= m < j && !repeatable(#[trigger] pairs_view(out@)[m].0) ==> pairs_view(out@)[m].1.len() == 1,
        decreases out.len() - j,
    {
        let k = out[j].0.as_str();
        assert(pairs_view(out@)[j as int] == entry_view(out@[j as int]));
        if !(str_eq(k, "account") || str_eq(k, "category")) && out[j].1.len() != 1 {
            proof {
                let g = pairs_view(out@);
                assert(!repeatable(g[j as int].0));
                assert(g[j as int].1.len() != 1);
                assert(decoded_pairs(split_on(query_text(q), '&')) == Some(ps));
            }
            return Err(());
        }
        j = j + 1;
    }
    Ok(out)
}

/// The view of an optional string.
pub open spec fn opt_view(o: Option<String>) -> Option<Seq<char>> {
    match o {
        Some(s) => Some(s@),
        None => None,
    }
}

/// The views of a vector of strings.
pub open spec fn strings_view(v: Seq<String>) -> Seq<Seq<char>> {
    v.map_values(|s: String| s@)
}

/// The views of an optional vector of strings.
pub open spec fn opt_strings(o: Option<Vec<String>>) -> Option<Seq<Seq<char>>> {
    match o {
        Some(v) => Some(strings_view(v@)),
        None => None,
    }
}

/// The values given for `key`, when it was given.
pub open spec fn values_of(g: Seq<(Seq<char>, Seq<Seq<char>>)>, key: Seq<char>) -> Option<Seq<Seq<char>>> {
    let i = key_index(g, key);
    if i >= 0 {
        Some(g[i].1)
    } else {
        None
    }
}

/// The first value given for `key`, when it was given.
pub open spec fn first_value(g: Seq<(Seq<char>, Seq<Seq<char>>)>, key: Seq<char>) -> Option<Seq<char>> {
    match values_of(g, key) {
        Some(vs) => if vs.len() > 0 {
            Some(vs[0])
        } else {
            None
        },
        None => None,
    }
}

proof fn lemma_key_index_bounds(g: Seq<(Seq<char>, Seq<Seq<char>>)>, k: Seq<char>)
    ensures
        -1 <= key_index(g, k) < g.len(),
        key_index(g, k) >= 0 ==> g[key_index(g, k)].0 == k,
    decreases g.len(),
{
    if g.len() > 0 && g.last().0 != k {
        lemma_key_index_bounds(g.drop_last(), k);
    }
}

/// The first value given for `key` (see `first_value`).
pub fn one(query: &Vec<(String, Vec<String>)>, key: &str) -> (r: Option<String>)
    ensures
        opt_view(r) == first_value(pairs_view(query@), key@),
{
    proof {
        lemma_key_index_bounds(pairs_view(query@), key@);
    }
    match find_key(query, key) {
        Some(i) => {
            assert(pairs_view(query@)[i as int] == entry_view(query@[i as int]));
            if query[i].1.len() > 0 {
                Some(query[i].1[0].clone())
            } else {
                None
            }
        },
        None => None,
    }
}

/// A copy of a vector of strings.
fn copy_strings(v: &Vec<String>) -> (r: Vec<String>)
    ensures
        strings_view(r@) == strings_view(v@),
{
    let mut out: Vec<String> = Vec::new();
    let mut i: usize = 0;
    while i < v.len()
        invariant
            i <= v.len(),
            strings_view(out@) == strings_view(v@.subrange(0, i as int)),
        decreases v.len() - i,
    {
        out.push(v[i].clone());
        assert(strings_view(v@.subrange(0, i + 1)) =~= strings_view(v@.subrange(0, i as int)).push(v@[i as int]@));
        assert(strings_view(out@) =~= strings_view(v@.subrange(0, i as int)).push(v@[i as int]@));
        i = i + 1;
    }
    assert(v@.subrange(0, v.len() as int) =~= v@);
    out
}

/// The values given for `key`, copied (see `values_of`).
fn values_for(query: &Vec<(String, Vec<String>)>, key: &str) -> (r: Option<Vec<String>>)
    ensures
        opt_strings(r) == values_of(pairs_view(query@), key@),
{
    proof {
        lemma_key_index_bounds(pairs_view(query@), key@);
    }
    match find_key(query, key) {
        Some(i) => {
            assert(pairs_view(query@)[i as int] == entry_view(query@[i as int]));
            Some(copy_strings(&query[i].1))
        },
        None => None,
    }
}

fn copy_opt_strings(o: &Option<Vec<String>>) -> (r: Option<Vec<String>>)
    ensures
        opt_strings(r) == opt_strings(*o),
{
    match o {
        Some(v) => Some(copy_strings(v)),
        None => None,
    }
}

/// The drill-down metric named `name`, if any.
pub open spec fn metric_named(name: Seq<char>) -> Option<DrillMetric> {
    if name == "activity"@ {
        Some(DrillMetric::Activity)
    } else if name == "income"@ {
        Some(DrillMetric::Income)
    } else if name == "consumption_expense"@ {
        Some(DrillMetric::ConsumptionExpense)
    } else if name == "net_cash_flow"@ {
        Some(DrillMetric::NetCashFlow)
    } else if name == "investment_contribution"@ {
        Some(DrillMetric::InvestmentContribution)
    } else {
        None
    }
}

/// The drill-down metric a query names.
pub fn parse_metric(metric: &str) -> (r: Option<DrillMetric>)
    ensures
        r == metric_named(metric@),
{
    if str_eq(metric, "activity") {
        Some(DrillMetric::Activity)
    } else if str_eq(metric, "income") {
        Some(DrillMetric::Income)
    } else if str_eq(metric, "consumption_expense") {
        Some(DrillMetric::ConsumptionExpense)
    } else if str_eq(metric, "net_cash_flow") {
        Some(DrillMetric::NetCashFlow)
    } else if str_eq(metric, "investment_contribution") {
        Some(DrillMetric::InvestmentContribution)
    } else {
        None
    }
}

/// Keys a dashboard or drill-down query may hold.
pub open spec fn filter_key(k: Seq<char>) -> bool {
    k == "start"@ || k == "end"@ || k == "currency"@ || k == "account"@ || k == "category"@ || k == "metric"@
        || k == "month"@ || k == "cursor"@ || k == "limit"@
}

/// Keys a dashboard snapshot query may hold.
pub open spec fn snapshot_key(k: Seq<char>) -> bool {
    k == "start"@ || k == "end"@ || k == "currency"@ || k == "account"@ || k == "category"@
}

fn is_filter_key(k: &str) -> (r: bool)
    ensures
        r == filter_key(k@),
{
    str_eq(k, "start") || str_eq(k, "end") || str_eq(k, "currency") || str_eq(k, "account") || str_eq(k, "category")
        || str_eq(k, "metric") || str_eq(k, "month") || str_eq(k, "cursor") || str_eq(k, "limit")
}

/// Whether a snapshot query holds only filter keys.
pub fn snapshot_query_allowed(query: &Vec<(String, Vec<String>)>) -> (r: bool)
    ensures
        r == (forall|i: int| 0 <= i < query.len() ==> snapshot_key(#[trigger] pairs_view(query@)[i].0)),
{
    let mut i: usize = 0;
    while i < query.len()
        invariant
            i <= query.len(),
            forall|j: int| 0 <= j < i ==> snapshot_key(#[trigger] pairs_view(query@)[j].0),
        decreases query.len() - i,
    {
        let k = query[i].0.as_str();
        assert(pairs_view(query@)[i as int] == entry_view(query@[i as int]));
        if !(str_eq(k, "start") || str_eq(k, "end") || str_eq(k, "currency") || str_eq(k, "account") || str_eq(
            k,
            "category",
        )) {
            assert(!snapshot_key(pairs_view(query@)[i as int].0));
            return false;
        }
        i = i + 1;
    }
    true
}

/// `o`'s text, or `default`.
pub open spec fn or_text(o: Option<Seq<char>>, default: Seq<char>) -> Seq<char> {
    match o {
        Some(s) => s,
        None => default,
    }
}

/// The filters a query asks for: each given filter replaces the default
/// one (the first value of `start`, `end` and `currency`, all values of
/// `account` and `category`); a key that is not a filter key refuses the
/// query.
pub fn filters_from_pairs(query: &Vec<(String, Vec<String>)>, defaults: &FinanceFilterRequest) -> (r: Result<
    FinanceFilterRequest,
    (),
>)
    ensures
        r is Ok <==> (forall|i: int| 0 <= i < query.len() ==> filter_key(#[trigger] pairs_view(query@)[i].0)),
        r matches Ok(f) ==> {
            let g = pairs_view(query@);
            &&& f.start_date@ == or_text(first_value(g, "start"@), defaults.start_date@)
            &&& f.end_date@ == or_text(first_value(g, "end"@), defaults.end_date@)
            &&& opt_view(f.currency) == (match first_value(g, "currency"@) {
                Some(c) => Some(c),
                None => opt_view(defaults.currency),
            })
            &&& opt_strings(f.account_ids) == (match values_of(g, "account"@) {
                Some(vs) => Some(vs),
                None => opt_strings(defaults.account_ids),
            })
            &&& opt_strings(f.category_ids) == (match values_of(g, "category"@) {
                Some(vs) => Some(vs),
                None => opt_strings(defaults.category_ids),
            })
        },
{
    let mut i: usize = 0;
    while i < query.len()
        invariant
            i <= query.len(),
            forall|j: int| 0 <= j < i ==> filter_key(#[trigger] pairs_view(query@)[j].0),
        decreases query.len() - i,
    {
        assert(pairs_view(query@)[i as int] == entry_view(query@[i as int]));
        if !is_filter_key(query[i].0.as_str()) {
            assert(!filter_key(pairs_view(query@)[i as int].0));
            return Err(());
        }
        i = i + 1;
    }
    let start_date = match one(query, "start") {
        Some(x) => x,
        None => defaults.start_date.clone(),
    };
    let end_date = match one(query, "end") {
        Some(x) => x,
        None => defaults.end_date.clone(),
    };
    let currency = match one(query, "currency") {
        Some(x) => Some(x),
        None => copy_opt(&defaults.currency),
    };
    let account_ids = match values_for(query, "account") {
        Some(v) => Some(v),
        None => copy_opt_strings(&defaults.account_ids),
    };
    let category_ids = match values_for(query, "category") {
        Some(v) => Some(v),
        None => copy_opt_strings(&defaults.category_ids),
    };
    Ok(FinanceFilterRequest { start_date, end_date, currency, account_ids, category_ids })
}

/// A drill-down month: `yyyy-mm`, four digits, `-`, and a month number from
/// 1 to 12 as the standard library parses a `u8`.
pub open spec fn valid_month(m: Seq<char>) -> bool {
    &&& m.len() == 7
    &&& all_digits(m.subrange(0, 4))
    &&& m[4] == '-'
    &&& match std_parse_unsigned(m.subrange(5, 7), 255) {
        Some(x) => 1 <= x <= 12,
        None => false,
    }
}

/// The page size a drill-down asks for: a number from 1 to 100, or 50 when
/// none is given.
pub open spec fn drill_limit(l: Option<Seq<char>>) -> Option<usize> {
    match l {
        Some(t) => match std_parse_unsigned(t, usize::MAX as int) {
            Some(x) => if 1 <= x <= 100 {
                Some(x as usize)
            } else {
                None
            },
            None => None,
        },
        None => Some(50),
    }
}

/// Parses `v[lo..hi]` as the standard library parses an unsigned number no
/// larger than `max`.
fn parse_unsigned(v: &Vec<char>, lo: usize, hi: usize, max: u128) -> (r: Option<u128>)
    requires
        lo <= hi <= v.len(),
    ensures
        match r {
            Some(x) => std_parse_unsigned(v@.subrange(lo as int, hi as int), max as int) == Some(x as int),
            None => std_parse_unsigned(v@.subrange(lo as int, hi as int), max as int) is None,
        },
{
    let ghost s = v@.subrange(lo as int, hi as int);
    let start: usize = if lo < hi && v[lo] == '+' { lo + 1 } else { lo };
    assert(v@.subrange(start as int, hi as int) =~= (if s.len() > 0 && s[0] == '+' { s.drop_first() } else { s }));
    match parse_digits(v, start, hi, max) {
        Some(x) => {
            proof {
                lemma_digits_value_nonneg(v@.subrange(start as int, hi as int));
            }
            Some(x)
        },
        None => None,
    }
}

fn month_is_valid(m: &str) -> (r: bool)
    ensures
        r == valid_month(m@),
{
    let v = to_chars(m);
    if v.len() != 7 {
        return false;
    }
    let mut k: usize = 0;
    while k < 4
        invariant
            k <= 4,
            v@ == m@,
            v@.len() == 7,
            all_digits(v@.subrange(0, k as int)),
        decreases 4 - k,
    {
        if !is_ascii_digit(v[k]) {
            assert(!is_digit(v@.subrange(0, 4)[k as int]));
            return false;
        }
        assert(v@.subrange(0, k + 1) =~= v@.subrange(0, k as int).push(v@[k as int]));
        k = k + 1;
    }
    if v[4] != '-' {
        return false;
    }
    match parse_unsigned(&v, 5, 7, 255) {
        Some(x) => 1 <= x && x <= 12,
        None => false,
    }
}

/// The drill-down a query asks for: its filters (see `filters_from_pairs`),
/// its metric (required), an optional month (see `valid_month`), an
/// optional cursor, and a page size (see `drill_limit`); `Err` when any of
/// them is invalid.
pub fn drill_request_from_pairs(query: &Vec<(String, Vec<String>)>, defaults: &FinanceFilterRequest) -> (r: Result<
    DrillRequest,
    (),
>)
    ensures
        ({
            let g = pairs_view(query@);
            let ok = {
                &&& forall|i: int| 0 <= i < query.len() ==> filter_key(#[trigger] g[i].0)
                &&& first_value(g, "metric"@) matches Some(name) && metric_named(name) is Some
                &&& first_value(g, "month"@) matches Some(m) ==> valid_month(m)
                &&& drill_limit(first_value(g, "limit"@)) is Some
            };
            &&& (r is Ok <==> ok)
            &&& r matches Ok(d) ==> {
                &&& filters_from_pairs.ensures((query, defaults), Ok::<FinanceFilterRequest, ()>(d.filters))
                &&& Some(d.metric) == metric_named(first_value(g, "metric"@)->0)
                &&& opt_view(d.month) == first_value(g, "month"@)
                &&& opt_view(d.cursor) == first_value(g, "cursor"@)
                &&& Some(d.limit) == drill_limit(first_value(g, "limit"@))
            }
        }),
{
    let filters = match filters_from_pairs(query, defaults) {
        Ok(f) => f,
        Err(_) => return Err(()),
    };
    let metric = match one(query, "metric") {
        Some(name) => match parse_metric(name.as_str()) {
            Some(m) => m,
            None => return Err(()),
        },
        None => return Err(()),
    };
    let month = match one(query, "month") {
        Some(m) => if month_is_valid(m.as_str()) {
            Some(m)
        } else {
            return Err(());
        },
        None => None,
    };
    let limit: usize = match one(query, "limit") {
        Some(l) => {
            let v = to_chars(l.as_str());
            assert(v@.subrange(0, v.len() as int) =~= l@);
            match parse_unsigned(&v, 0, v.len(), usize::MAX as u128) {
                Some(x) => if 1 <= x && x <= 100 {
                    x as usize
                } else {
                    return Err(());
                },
                None => return Err(()),
            }
        },
        None => 50,
    };
    let cursor = one(query, "cursor");
    Ok(DrillRequest { filters, metric, month, cursor, limit })
}

/// Checks a currency code: three ASCII upper-case letters.
pub fn validate_currency(value: &str) -> (r: Result<String, String>)
    ensures
        match r {
            Ok(s) => s@ == value@ && value@.len() == 3 && forall|i: int| 0 <= i < 3 ==> 'A' <= #[trigger] value@[i] <= 'Z',
            Err(e) => e@ == "currency must be a three-letter uppercase ISO code"@ && !(value@.len() == 3 && forall|i: int|
                0 <= i < 3 ==> 'A' <= #[trigger] value@[i] <= 'Z'),
        },
{
    let v = to_chars(value);
    let ok = v.len() == 3 && v[0] >= 'A' && v[0] <= 'Z' && v[1] >= 'A' && v[1] <= 'Z' && v[2] >= 'A' && v[2] <= 'Z';
    if ok {
        assert forall|i: int| 0 <= i < 3 implies 'A' <= #[trigger] value@[i] <= 'Z' by {
            if i == 1 {
            }
        }
        Ok(owned(value))
    } else {
        Err(owned("currency must be a three-letter uppercase ISO code"))
    }
}


// ---------------------------------------------------------------------
// The dashboard's date range, through `chrono`.

/// The `chrono` text of a date (`NaiveDate`'s `Display`, `%Y-%m-%d`): the
/// year as `chrono_year_text` has it, then the month and the day in two
/// digits, each after a dash.
pub open spec fn chrono_date_text(year: int, month: int, day: int) -> Seq<char> {
    chrono_year_text(year) + seq!['-'] + zero_padded(month as nat, 2) + seq!['-'] + zero_padded(day as nat, 2)
}

/// A date of the Gregorian calendar within `chrono`'s years.
pub open spec fn chrono_date(year: int, month: int, day: int) -> bool {
    chrono_year(year) && 1 <= month <= 12 && 1 <= day <= days_in_month(year, month)
}

/// Calls `to_string` on `chrono::NaiveDate::from_ymd_opt(year, month, day)`.
/// Claimed, as the crate's `Debug` writer (which `Display` uses) does: the
/// text `chrono_date_text` of the date.
#[verifier::external_body]
fn date_text(year: i32, month: u32, day: u32) -> (r: String)
    requires
        chrono_date(year as int, month as int, day as int),
    ensures
        r@ == chrono_date_text(year as int, month as int, day as int),
{
    match chrono::NaiveDate::from_ymd_opt(year, month, day) {
        Some(d) => d.to_string(),
        None => String::new(),
    }
}

/// Calls `chrono::NaiveDate::checked_sub_months` with `back` months on the
/// first day of month `month` of `year`.  Claimed, as the crate's month
/// arithmetic computes it: the result is the first day of the month `back`
/// months earlier (months counted from year zero, split by Euclidean
/// division), and it fails only before `chrono`'s first year.
#[verifier::external_body]
fn months_earlier(year: i32, month: u32, back: u32) -> (r: Option<(i32, u32)>)
    requires
        1 <= month <= 12,
        chrono_year(year as int),
        back <= 12,
    ensures
        r is None <==> year * 12 + month - 1 - back < -262143 * 12,
        r matches Some(n) ==> n.0 == (year * 12 + month - 1 - back) / 12 && n.1 == (year * 12 + month - 1 - back) % 12 + 1,
{
    let first = chrono::NaiveDate::from_ymd_opt(year, month, 1)?;
    let earlier = first.checked_sub_months(chrono::Months::new(back))?;
    Some((earlier.year(), earlier.month()))
}

pub open spec fn ymd_of(today: (i32, u32, u32)) -> (int, int, int) {
    (today.0 as int, today.1 as int, today.2 as int)
}

/// The first day of the month eleven months before `today`'s month: the
/// start of a twelve-month range that ends in the current month.
pub open spec fn default_start(today: (i32, u32, u32)) -> (int, int, int) {
    let t = today.0 * 12 + today.1 - 1 - 11;
    (t / 12, t % 12 + 1, 1)
}

/// That month lies within `chrono`'s years.
pub open spec fn default_start_representable(today: (i32, u32, u32)) -> bool {
    today.0 * 12 + today.1 - 1 - 11 >= -262143 * 12
}

/// The end date: the one given, read by `chrono`, or today.
pub open spec fn end_date(end: Option<&str>, today: (i32, u32, u32)) -> Option<(int, int, int)> {
    match end {
        Some(v) => chrono_ymd(v@),
        None => Some(ymd_of(today)),
    }
}

/// The start date: the one given, read by `chrono`, or the default start.
pub open spec fn start_date(start: Option<&str>, today: (i32, u32, u32)) -> Option<(int, int, int)> {
    match start {
        Some(v) => chrono_ymd(v@),
        None => Some(default_start(today)),
    }
}

/// The dashboard's date range as `chrono` texts, or the message that
/// rejects it; the end date is checked first.
pub open spec fn spec_validated_dates(start: Option<&str>, end: Option<&str>, today: (i32, u32, u32)) -> Result<(Seq<char>, Seq<char>), Seq<char>> {
    match end_date(end, today) {
        None => Err("end date must use YYYY-MM-DD"@),
        Some(e) => match start_date(start, today) {
            None => Err("start date must use YYYY-MM-DD"@),
            Some(s) => if ymd_le(s, e) {
                Ok((chrono_date_text(s.0, s.1, s.2), chrono_date_text(e.0, e.1, e.2)))
            } else {
                Err("start date must be on or before end date"@)
            },
        },
    }
}

/// The date range a dashboard starts with: `end` defaults to `today`,
/// `start` to the first day of the month eleven months before today's, and
/// the start may not follow the end.  Both dates come back as `chrono`
/// writes them.
pub fn validated_dates(start: Option<&str>, end: Option<&str>, today: (i32, u32, u32)) -> (r: Result<(String, String), String>)
    requires
        chrono_date(today.0 as int, today.1 as int, today.2 as int),
        start is None && end_date(end, today) is Some ==> default_start_representable(today),
    ensures
        match r {
            Ok(p) => spec_validated_dates(start, end, today) == Ok::<(Seq<char>, Seq<char>), Seq<char>>((p.0@, p.1@)),
            Err(m) => spec_validated_dates(start, end, today) == Err::<(Seq<char>, Seq<char>), Seq<char>>(m@),
        },
{
    let e: (i32, u32, u32) = match end {
        Some(v) => match parse_ymd(v) {
            Some(d) => d,
            None => return Err(owned("end date must use YYYY-MM-DD")),
        },
        None => today,
    };
    let s: (i32, u32, u32) = match start {
        Some(v) => match parse_ymd(v) {
            Some(d) => d,
            None => return Err(owned("start date must use YYYY-MM-DD")),
        },
        None => match months_earlier(today.0, today.1, 11) {
            Some(m) => (m.0, m.1, 1),
            None => {
                assert(false);
                return Err(owned("start date must use YYYY-MM-DD"));
            },
        },
    };
    if e.0 < s.0 || (e.0 == s.0 && (e.1 < s.1 || (e.1 == s.1 && e.2 < s.2))) {
        return Err(owned("start date must be on or before end date"));
    }
    Ok((date_text(s.0, s.1, s.2), date_text(e.0, e.1, e.2)))
}

} // verus!
