//! Bank statements read from PDF: the inspection report's records, and the
//! text rules that turn statement rows into amounts, dates, descriptions and
//! redacted evidence.
use vstd::prelude::*;
use crate::documents::{rfind_char, rfind_in};
use crate::text::{digits_value, is_ascii_digit, is_digit, std_parse_signed, to_chars, lemma_digits_value_nonneg, all_digits};
use crate::documents::{parse_i64, split_on, split_slash};
use crate::text::{format_i64, int_digits, is_space, is_whitespace, format_u128, nat_digits, parse_digits, push_char, std_parse_unsigned};
use crate::ids::{ascii_lower, hex_of, push_hex, sha256_bytes, text_sha256, to_ascii_lowercase};
use crate::operations::{file_name, file_name_of, file_stem, file_stem_of};
use crate::patterns::{find_all, regex_matches, rewrite, rewritten, texts_of};
use crate::review::owned;
use crate::text::{byte_boundary, byte_prefix, prefix_bytes, push_chars, push_str, str_eq};
use vstd::utf8::encode_utf8;

verus! {

/// A character kept when an amount is cleaned: a digit, `.` or `,`.
pub open spec fn is_money_char(c: char) -> bool {
    is_digit(c) || c == '.' || c == ','
}

/// The digits and separators of `s`, in order.
pub open spec fn money_chars(s: Seq<char>) -> Seq<char> {
    s.filter(|c: char| is_money_char(c))
}

/// The digits of `s`, in order.
pub open spec fn digits_only(s: Seq<char>) -> Seq<char> {
    s.filter(|c: char| is_digit(c))
}

/// Position of the decimal separator in cleaned amount text, or `-1`: the
/// last separator when both `.` and `,` occur; a lone kind of separator is
/// decimal only when at most two characters follow its last occurrence.
pub open spec fn decimal_separator(cleaned: Seq<char>) -> int {
    let dot = rfind_char(cleaned, '.');
    let comma = rfind_char(cleaned, ',');
    let last = if dot > comma { dot } else { comma };
    if dot >= 0 && comma >= 0 {
        last
    } else if last >= 0 && cleaned.len() - (last + 1) <= 2 {
        last
    } else {
        -1
    }
}

/// Exactly two decimal places: the first two digits, padded with `0`.
pub open spec fn two_places(d: Seq<char>) -> Seq<char> {
    if d.len() >= 2 {
        d.subrange(0, 2)
    } else if d.len() == 1 {
        d.push('0')
    } else {
        seq!['0', '0']
    }
}

/// Minor units (hundredths) of a statement amount such as `$ -45.900,00`:
/// only digits and separators count, the decimal separator is chosen by
/// `decimal_separator`, the cents are the first two decimal digits, and the
/// amount is negative when the text holds a `-` anywhere.  `None` when no
/// digit or separator occurs, when the integer part has no digit, or when
/// the value does not fit an `i64`.
pub open spec fn spec_minor_units(text: Seq<char>) -> Option<int> {
    let cleaned = money_chars(text);
    let k = decimal_separator(cleaned);
    let whole = digits_only(if k >= 0 { cleaned.subrange(0, k) } else { cleaned });
    let fraction = if k >= 0 { cleaned.subrange(k + 1, cleaned.len() as int) } else { Seq::<char>::empty() };
    let cents = digits_value(two_places(digits_only(fraction)));
    if cleaned.len() == 0 {
        None
    } else {
        match std_parse_signed(whole, i64::MIN as int, i64::MAX as int) {
            Some(w) => if w * 100 + cents <= i64::MAX {
                Some(if text.contains('-') { -(w * 100 + cents) } else { w * 100 + cents })
            } else {
                None
            },
            None => None,
        }
    }
}

proof fn lemma_filter_step(s: Seq<char>, lo: int, k: int, keep: spec_fn(char) -> bool)
    requires
        0 <= lo <= k < s.len(),
    ensures
        s.subrange(lo, k + 1).filter(keep) == (if keep(s[k]) {
            s.subrange(lo, k).filter(keep).push(s[k])
        } else {
            s.subrange(lo, k).filter(keep)
        }),
{
    let a = s.subrange(lo, k);
    assert(s.subrange(lo, k + 1) =~= a.push(s[k]));
    reveal_with_fuel(Seq::<_>::filter, 1);
    assert(a.push(s[k]).drop_last() =~= a);
}

/// The digits of `v[lo..hi]`.
fn keep_digits(v: &Vec<char>, lo: usize, hi: usize) -> (r: Vec<char>)
    requires
        lo <= hi <= v.len(),
    ensures
        r@ == digits_only(v@.subrange(lo as int, hi as int)),
        all_digits(r@),
{
    let mut out: Vec<char> = Vec::new();
    let mut k = lo;
    assert(v@.subrange(lo as int, lo as int).filter(|c: char| is_digit(c)) =~= Seq::<char>::empty()) by {
        reveal_with_fuel(Seq::<_>::filter, 1);
    }
    while k < hi
        invariant
            lo <= k <= hi <= v.len(),
            out@ == digits_only(v@.subrange(lo as int, k as int)),
            all_digits(out@),
        decreases hi - k,
    {
        proof {
            lemma_filter_step(v@, lo as int, k as int, |c: char| is_digit(c));
        }
        if is_ascii_digit(v[k]) {
            out.push(v[k]);
        }
        k = k + 1;
    }
    out
}

/// The digits and separators of `v`.
fn keep_money_chars(v: &Vec<char>) -> (r: Vec<char>)
    ensures
        r@ == money_chars(v@),
{
    let mut out: Vec<char> = Vec::new();
    let mut k: usize = 0;
    assert(v@.subrange(0, 0).filter(|c: char| is_money_char(c)) =~= Seq::<char>::empty()) by {
        reveal_with_fuel(Seq::<_>::filter, 1);
    }
    while k < v.len()
        invariant
            k <= v.len(),
            out@ == money_chars(v@.subrange(0, k as int)),
        decreases v.len() - k,
    {
        proof {
            lemma_filter_step(v@, 0, k as int, |c: char| is_money_char(c));
        }
        let c = v[k];
        if is_ascii_digit(c) || c == '.' || c == ',' {
            out.push(c);
        }
        k = k + 1;
    }
    assert(v@.subrange(0, v.len() as int) =~= v@);
    out
}

/// Whether `v` holds the character `c`.
fn holds_char(v: &Vec<char>, c: char) -> (r: bool)
    ensures
        r == v@.contains(c),
{
    let mut k: usize = 0;
    while k < v.len()
        invariant
            k <= v.len(),
            forall|j: int| 0 <= j < k ==> v@[j] != c,
        decreases v.len() - k,
    {
        if v[k] == c {
            return true;
        }
        k = k + 1;
    }
    false
}

/// Minor units of a statement amount (see `spec_minor_units`).
pub fn parse_money_minor_units(text: &str) -> (r: Option<i64>)
    ensures
        match r {
            Some(x) => spec_minor_units(text@) == Some(x as int),
            None => spec_minor_units(text@) is None,
        },
{
    let v = to_chars(text);
    let negative = holds_char(&v, '-');
    let cleaned = keep_money_chars(&v);
    let n = cleaned.len();
    if n == 0 {
        return None;
    }
    let ghost cs = cleaned@;
    assert(cs.subrange(0, n as int) =~= cs);
    let dot = rfind_in(&cleaned, 0, n, '.');
    let comma = rfind_in(&cleaned, 0, n, ',');
    let k: Option<usize> = match (dot, comma) {
        (Some(d), Some(c)) => Some(if d > c { d } else { c }),
        (Some(i), None) => if n - (i + 1) <= 2 { Some(i) } else { None },
        (None, Some(i)) => if n - (i + 1) <= 2 { Some(i) } else { None },
        (None, None) => None,
    };
    let ghost ks = decimal_separator(cs);
    assert(match k { Some(i) => ks == i as int, None => ks == -1 });
    let (whole, fraction) = match k {
        Some(i) => (keep_digits(&cleaned, 0, i), keep_digits(&cleaned, i + 1, n)),
        None => (keep_digits(&cleaned, 0, n), Vec::new()),
    };
    assert(fraction@ == digits_only(if ks >= 0 { cs.subrange(ks + 1, cs.len() as int) } else { Seq::<char>::empty() })) by {
        if ks < 0 {
            reveal_with_fuel(Seq::<_>::filter, 1);
            assert(fraction@ =~= Seq::<char>::empty());
        }
    }
    let d0: i64 = if fraction.len() >= 1 { (fraction[0] as u32 - '0' as u32) as i64 } else { 0 };
    let d1: i64 = if fraction.len() >= 2 { (fraction[1] as u32 - '0' as u32) as i64 } else { 0 };
    let cents = 10 * d0 + d1;
    proof {
        let t = two_places(fraction@);
        assert(t.len() == 2);
        assert(t.drop_last().drop_last() =~= Seq::<char>::empty());
        assert(digits_value(t) == 10 * digits_value(t.drop_last()) + (t.last() as int - '0' as int));
        assert(digits_value(t.drop_last()) == 10 * digits_value(t.drop_last().drop_last()) + (t[0] as int - '0' as int));
        assert(fraction@.len() >= 1 ==> t[0] == fraction@[0]);
        assert(fraction@.len() >= 2 ==> t[1] == fraction@[1]);
        assert(fraction@.len() >= 1 ==> is_digit(fraction@[0]));
        assert(fraction@.len() >= 2 ==> is_digit(fraction@[1]));
        assert(cents == digits_value(t));
    }
    assert(whole@.subrange(0, whole.len() as int) =~= whole@);
    let w = match parse_i64(&whole, 0, whole.len()) {
        Some(w) => w,
        None => return None,
    };
    proof {
        lemma_digits_value_nonneg(whole@);
        if whole@.len() > 0 {
            assert(whole@[0] != '-' && whole@[0] != '+') by {
                assert(is_digit(whole@[0]));
            }
        }
    }
    assert(w >= 0);
    let value = match w.checked_mul(100) {
        Some(h) => match h.checked_add(cents) {
            Some(x) => x,
            None => return None,
        },
        None => return None,
    };
    assert(negative == text@.contains('-'));
    Some(if negative { -value } else { value })
}

/// Where the credential that opened a protected document came from.
#[derive(Clone, Copy, Debug, PartialEq, Eq, Structural)]
pub enum CredentialSource {
    NoCredential,
    CliFlag,
    Prompt,
    Env,
    Unknown,
}

/// How a statement is to be inspected.
#[derive(Clone, Debug)]
pub struct InspectPdfOptions<'a> {
    pub document_credential: Option<&'a str>,
    pub credential_source: CredentialSource,
    pub institution_hint: Option<String>,
}

impl<'a> Default for InspectPdfOptions<'a> {
    /// No credential, and the institution taken from the file name.
    fn default() -> (r: Self)
        ensures
            r.document_credential is None,
            r.credential_source == CredentialSource::NoCredential,
            r.institution_hint is None,
    {
        InspectPdfOptions {
            document_credential: None,
            credential_source: CredentialSource::NoCredential,
            institution_hint: None,
        }
    }
}

/// The account a statement belongs to, as far as the document shows it.
#[derive(Debug, PartialEq)]
pub struct AccountHint {
    pub label: String,
    pub currency: &'static str,
    pub masked_identifier: Option<String>,
}

/// Whether the document was seen before.
#[derive(Debug, PartialEq)]
pub struct DocumentDuplicateStatus {
    pub status: &'static str,
    pub matched_source_document_id: Option<String>,
    pub reason: Option<String>,
}

/// The inspected file.
#[derive(Debug, PartialEq)]
pub struct SourceDocument {
    pub id: String,
    pub input_name: String,
    pub content_sha256: String,
    pub mime_type: &'static str,
    pub byte_size: u64,
    pub institution_hint: String,
    pub account_hint: AccountHint,
    pub document_duplicate_status: DocumentDuplicateStatus,
}

/// Outcome of text extraction.
#[derive(Clone, Copy, Debug, PartialEq, Eq, Structural)]
pub enum ExtractorState {
    NotRun,
    Succeeded,
    Partial,
    Failed,
}

/// What text extraction did.
#[derive(Debug, PartialEq)]
pub struct ExtractorStatus {
    pub status: ExtractorState,
    pub extractor: &'static str,
    pub pages_seen: usize,
    pub pages_extracted: usize,
    pub requires_document_credential: bool,
    pub credential_source: CredentialSource,
    pub warnings: Vec<String>,
}

/// Outcome of row parsing.
#[derive(Clone, Copy, Debug, PartialEq, Eq, Structural)]
pub enum ParserState {
    NotRun,
    Succeeded,
    Partial,
    Failed,
    UnsupportedDocument,
}

/// What row parsing did.
#[derive(Debug, PartialEq)]
pub struct ParserStatus {
    pub status: ParserState,
    pub parser_id: String,
    pub parser_version: &'static str,
    pub candidates_found: usize,
    pub candidates_valid: usize,
    pub warnings: Vec<String>,
}

/// Duplicate detection for one candidate transaction.
#[derive(Debug, PartialEq)]
pub struct DuplicateStatus {
    pub status: &'static str,
    pub fingerprint: String,
    pub matched_candidate_ids: Vec<String>,
    pub matched_canonical_transaction_ids: Vec<String>,
    pub reason: Option<String>,
}

/// The extractor that produced a row.
#[derive(Debug, PartialEq)]
pub struct ExtractorRef {
    pub name: &'static str,
    pub version: Option<&'static str>,
}

/// The parser that produced a candidate.
#[derive(Debug, PartialEq)]
pub struct ParserRef {
    pub id: String,
    pub version: &'static str,
}

/// Redacted row text kept as evidence.
#[derive(Debug, PartialEq)]
pub struct Evidence {
    pub redaction: &'static str,
    pub text: String,
    pub raw_storage_policy: &'static str,
}

/// An amount found in statement text.
#[derive(Clone, Debug, PartialEq)]
pub struct ParsedMoney {
    pub text: String,
    pub value_minor_units: Option<i64>,
    pub currency: &'static str,
}

/// Statement amounts: `$`, optional spaces and `-`, one to three digits,
/// groups of three digits after `.` or `,`, and one or two decimals.
pub const MONEY_PATTERN: &'static str = r"\$\s*-?\d{1,3}(?:[.,]\d{3})*(?:[.,]\d{1,2})?";

/// `t` is the amount read from the matched text `m`.
pub open spec fn money_token_of(m: Seq<char>, t: ParsedMoney) -> bool {
    &&& t.text@ == m
    &&& t.currency@ == "COP"@
    &&& match t.value_minor_units {
        Some(x) => spec_minor_units(m) == Some(x as int),
        None => spec_minor_units(m) is None,
    }
}

/// The amounts written in `text`, in order, each with its minor units.
pub fn money_tokens(text: &str) -> (r: Vec<ParsedMoney>)
    ensures
        match regex_matches(MONEY_PATTERN@, text@) {
            Some(ms) => r.len() == ms.len() && forall|i: int| 0 <= i < ms.len() ==> money_token_of(ms[i], #[trigger] r@[i]),
            None => r.len() == 0,
        },
{
    let found = match find_all(MONEY_PATTERN, text) {
        Some(v) => v,
        None => return Vec::new(),
    };
    let ghost ms = texts_of(found@);
    let mut out: Vec<ParsedMoney> = Vec::new();
    let mut i: usize = 0;
    while i < found.len()
        invariant
            i <= found.len(),
            ms == texts_of(found@),
            out.len() == i,
            forall|j: int| 0 <= j < i ==> money_token_of(ms[j], #[trigger] out@[j]),
        decreases found.len() - i,
    {
        let hit = found[i].as_str();
        let value = parse_money_minor_units(hit);
        let t = owned(hit);
        out.push(ParsedMoney { text: t, value_minor_units: value, currency: "COP" });
        i = i + 1;
    }
    out
}

/// The parser identifier for an institution.
pub open spec fn parser_id(institution: Seq<char>) -> Seq<char> {
    institution + ".statement.v1"@
}

/// The parser identifier for an institution: `<institution>.statement.v1`.
pub fn parser_id_for(institution: &str) -> (r: String)
    ensures
        r@ == parser_id(institution@),
{
    let mut out = owned(institution);
    push_str(&mut out, ".statement.v1");
    out
}

/// The account label shown for an institution.
pub open spec fn account_label(institution: Seq<char>) -> Seq<char> {
    if institution == "rappi"@ {
        "Rappi card"@
    } else if institution == "nequi"@ {
        "Nequi wallet"@
    } else {
        institution + " account"@
    }
}

/// The account hint of an institution's statements: its label, in COP,
/// with no masked identifier.
pub fn account_hint(institution: &str) -> (r: AccountHint)
    ensures
        r.label@ == account_label(institution@),
        r.currency@ == "COP"@,
        r.masked_identifier is None,
{
    let label = if str_eq(institution, "rappi") {
        owned("Rappi card")
    } else if str_eq(institution, "nequi") {
        owned("Nequi wallet")
    } else {
        let mut l = owned(institution);
        push_str(&mut l, " account");
        l
    };
    AccountHint { label, currency: "COP", masked_identifier: None }
}

/// How many bytes of a content digest an identifier keeps: twenty-six, or
/// all of a shorter digest.
pub open spec fn kept_bytes(content_sha256: Seq<char>) -> int {
    let b = encode_utf8(content_sha256).len() as int;
    if b < 26 {
        b
    } else {
        26
    }
}

/// `srcdoc_` and the first twenty-six bytes of the content digest.
pub open spec fn source_id(content_sha256: Seq<char>) -> Seq<char> {
    "srcdoc_"@ + byte_prefix(content_sha256, kept_bytes(content_sha256))
}

/// The source document identifier of a content digest (a hex digest, so
/// its first twenty-six bytes end on a character boundary).
pub fn source_document_id(content_sha256: &str) -> (r: String)
    requires
        byte_boundary(content_sha256@, kept_bytes(content_sha256@)),
    ensures
        r@ == source_id(content_sha256@),
{
    let v = to_chars(content_sha256);
    let ghost t = content_sha256@;
    let mut k: usize = 0;
    let mut total: u128 = 0;
    assert(t.take(0) =~= Seq::<char>::empty());
    while k < v.len() && total < 26
        invariant
            k <= v.len(),
            v@ == t,
            total as int == encode_utf8(t.take(k as int)).len(),
            total <= 30,
        decreases v.len() - k,
    {
        proof {
            assert(t.take(k + 1) =~= t.take(k as int).push(t[k as int]));
            crate::text::lemma_encode_push_len(t.take(k as int), t[k as int]);
        }
        total = total + crate::text::utf8_width_of(v[k]) as u128;
        k = k + 1;
    }
    proof {
        if k < v.len() {
            crate::text::lemma_encode_prefix_increasing(t, k as int, t.len() as int);
        }
        assert(t.take(t.len() as int) =~= t);
    }
    let n: usize = if total < 26 { total as usize } else { 26 };
    assert(n as int == kept_bytes(t));
    let mut out = owned("srcdoc_");
    let kept = prefix_bytes(content_sha256, n);
    push_str(&mut out, kept.as_str());
    out
}

/// `s` begins with the five letters `rappi`.
pub open spec fn starts_rappi(s: Seq<char>) -> bool {
    s.len() >= 5 && s.subrange(0, 5) == "rappi"@
}

/// The institution guessed from a file name: `rappi` when the file stem
/// begins with `rappi` in any ASCII case, else `nequi`.
pub open spec fn institution_of(path: Seq<char>) -> Seq<char> {
    match file_stem_of(path) {
        Some(stem) => if starts_rappi(ascii_lower(stem)) { "rappi"@ } else { "nequi"@ },
        None => "nequi"@,
    }
}

/// The institution guessed from a statement's file name.
pub fn institution_for(path: &str) -> (r: &'static str)
    ensures
        r@ == institution_of(path@),
{
    let rappi = match file_stem(path) {
        Some(stem) => {
            let lower = to_ascii_lowercase(stem.as_str());
            let v = to_chars(lower.as_str());
            let w = to_chars("rappi");
            proof {
                reveal_strlit("rappi");
            }
            if v.len() >= 5 {
                let mut same = true;
                let mut k: usize = 0;
                while k < 5
                    invariant
                        k <= 5 <= v.len(),
                        w@ == "rappi"@,
                        w@.len() == 5,
                        same == (forall|j: int| 0 <= j < k ==> v@[j] == w@[j]),
                    decreases 5 - k,
                {
                    same = same && v[k] == w[k];
                    k = k + 1;
                }
                assert(same == (v@.subrange(0, 5) == w@)) by {
                    if same {
                        assert(v@.subrange(0, 5) =~= w@);
                    } else {
                        assert(exists|j: int| 0 <= j < 5 && v@[j] != w@[j]);
                        let j = choose|j: int| 0 <= j < 5 && v@[j] != w@[j];
                        assert(v@.subrange(0, 5)[j] != w@[j]);
                    }
                }
                same
            } else {
                false
            }
        },
        None => false,
    };
    if rappi { "rappi" } else { "nequi" }
}

/// The file name shown for the inspected path (empty when it has none).
pub fn input_name(path: &str) -> (r: String)
    ensures
        r@ == match file_name_of(path@) {
            Some(n) => n,
            None => Seq::<char>::empty(),
        },
{
    match file_name(path) {
        Some(n) => n,
        None => String::new(),
    }
}

/// Statements whose rows a parser understands.
pub open spec fn supported(institution: Seq<char>) -> bool {
    institution == "nequi"@ || institution == "rappi"@
}

/// The warning given when no parser matches.
pub open spec fn unsupported_warning(institution: Seq<char>) -> Seq<char> {
    "no deterministic parser matched institution '"@ + institution + "'"@
}

/// What row parsing reports for a document of `institution` whose rows gave
/// `candidates_found` candidate transactions: unsupported institutions are
/// not parsed (nothing found, one warning); otherwise parsing succeeded when
/// some candidate was found and failed when none was, and every candidate
/// found is valid.
pub fn parser_status(institution: &str, candidates_found: usize) -> (r: ParserStatus)
    ensures
        r.parser_id@ == parser_id(institution@),
        r.parser_version@ == "1"@,
        !supported(institution@) ==> {
            &&& r.status == ParserState::UnsupportedDocument
            &&& r.candidates_found == 0
            &&& r.candidates_valid == 0
            &&& r.warnings.len() == 1
            &&& r.warnings@[0]@ == unsupported_warning(institution@)
        },
        supported(institution@) ==> {
            &&& r.status == (if candidates_found == 0 { ParserState::Failed } else { ParserState::Succeeded })
            &&& r.candidates_found == candidates_found
            &&& r.candidates_valid == candidates_found
            &&& r.warnings.len() == 0
        },
{
    let id = parser_id_for(institution);
    if !(str_eq(institution, "nequi") || str_eq(institution, "rappi")) {
        let mut w = owned("no deterministic parser matched institution '");
        push_str(&mut w, institution);
        push_str(&mut w, "'");
        return ParserStatus {
            status: ParserState::UnsupportedDocument,
            parser_id: id,
            parser_version: "1",
            candidates_found: 0,
            candidates_valid: 0,
            warnings: vec![w],
        };
    }
    ParserStatus {
        status: if candidates_found == 0 { ParserState::Failed } else { ParserState::Succeeded },
        parser_id: id,
        parser_version: "1",
        candidates_found,
        candidates_valid: candidates_found,
        warnings: Vec::new(),
    }
}

/// The warning given when parsing is skipped.
pub open spec fn skipped_warning() -> Seq<char> {
    "parser skipped because pdf_oxide extraction failed"@
}

/// What row parsing reports when extraction failed: it did not run.
pub fn parser_not_run(institution: &str) -> (r: ParserStatus)
    ensures
        r.status == ParserState::NotRun,
        r.parser_id@ == parser_id(institution@),
        r.parser_version@ == "1"@,
        r.candidates_found == 0,
        r.candidates_valid == 0,
        r.warnings.len() == 1,
        r.warnings@[0]@ == skipped_warning(),
{
    ParserStatus {
        status: ParserState::NotRun,
        parser_id: parser_id_for(institution),
        parser_version: "1",
        candidates_found: 0,
        candidates_valid: 0,
        warnings: vec![owned("parser skipped because pdf_oxide extraction failed")],
    }
}

/// Outcome of an extraction that opened the document: success without page
/// errors, failure when errors left no line, partial otherwise.
pub fn extraction_state(has_errors: bool, has_lines: bool) -> (r: ExtractorState)
    ensures
        r == (if !has_errors {
            ExtractorState::Succeeded
        } else if !has_lines {
            ExtractorState::Failed
        } else {
            ExtractorState::Partial
        }),
{
    if !has_errors {
        ExtractorState::Succeeded
    } else if !has_lines {
        ExtractorState::Failed
    } else {
        ExtractorState::Partial
    }
}

/// `nat_digits(n)` left-padded with `0` to at least `width` characters
/// (`{:0width$}`).
pub open spec fn padded(n: nat, width: nat) -> Seq<char> {
    let d = nat_digits(n);
    if d.len() >= width {
        d
    } else {
        Seq::new((width - d.len()) as nat, |i: int| '0') + d
    }
}

/// A `d/m/yyyy` statement date written `yyyy-mm-dd`: the first three
/// `/`-separated parts are read as unsigned 32-bit numbers (day, month,
/// year) and printed zero-padded to widths 4, 2 and 2; the text is kept as
/// it is when there are fewer than three parts or one does not parse.
pub open spec fn nequi_date(date: Seq<char>) -> Seq<char> {
    let parts = split_on(date, '/');
    if parts.len() >= 3 {
        match (
            std_parse_unsigned(parts[0], u32::MAX as int),
            std_parse_unsigned(parts[1], u32::MAX as int),
            std_parse_unsigned(parts[2], u32::MAX as int),
        ) {
            (Some(d), Some(m), Some(y)) => padded(y as nat, 4) + "-"@ + padded(m as nat, 2) + "-"@ + padded(
                d as nat,
                2,
            ),
            _ => date,
        }
    } else {
        date
    }
}

/// Parses `p` as the standard library parses a `u32`.
fn parse_u32(p: &Vec<char>) -> (r: Option<u32>)
    ensures
        match r {
            Some(x) => std_parse_unsigned(p@, u32::MAX as int) == Some(x as int),
            None => std_parse_unsigned(p@, u32::MAX as int) is None,
        },
{
    let n = p.len();
    let start: usize = if n > 0 && p[0] == '+' { 1 } else { 0 };
    assert(p@.subrange(start as int, n as int) =~= (if p@.len() > 0 && p@[0] == '+' { p@.drop_first() } else { p@ }));
    match parse_digits(p, start, n, 4294967295) {
        Some(x) => {
            proof {
                let body = p@.subrange(start as int, n as int);
                lemma_digits_value_nonneg(body);
            }
            Some(x as u32)
        },
        None => None,
    }
}

/// Appends `n` zero-padded to `width` characters.
fn push_padded(out: &mut String, n: u32, width: usize)
    ensures
        final(out)@ == old(out)@ + padded(n as nat, width as nat),
{
    let digits = format_u128(n as u128);
    let d = to_chars(digits.as_str());
    let ghost start = out@;
    let mut k = d.len();
    while k < width
        invariant
            d.len() <= k <= width || (k == d.len() && d.len() >= width),
            out@ == start + Seq::new((k - d.len()) as nat, |i: int| '0'),
        decreases width - k,
    {
        push_char(out, '0');
        assert(Seq::new((k + 1 - d.len()) as nat, |i: int| '0') =~= Seq::new((k - d.len()) as nat, |i: int| '0').push('0'));
        k = k + 1;
    }
    push_str(out, digits.as_str());
    if d.len() >= width {
        assert(Seq::new((k - d.len()) as nat, |i: int| '0') =~= Seq::<char>::empty());
        assert(out@ =~= start + padded(n as nat, width as nat));
    } else {
        assert(out@ =~= start + padded(n as nat, width as nat));
    }
}

/// A statement date `d/m/yyyy` written `yyyy-mm-dd` (see `nequi_date`).
pub fn normalize_nequi_date(date: &str) -> (r: String)
    ensures
        r@ == nequi_date(date@),
{
    let v = to_chars(date);
    let parts = split_slash(&v);
    if parts.len() < 3 {
        return owned(date);
    }
    let day = match parse_u32(&parts[0]) {
        Some(x) => x,
        None => return owned(date),
    };
    let month = match parse_u32(&parts[1]) {
        Some(x) => x,
        None => return owned(date),
    };
    let year = match parse_u32(&parts[2]) {
        Some(x) => x,
        None => return owned(date),
    };
    let mut out = String::new();
    push_padded(&mut out, year, 4);
    push_str(&mut out, "-");
    push_padded(&mut out, month, 2);
    push_str(&mut out, "-");
    push_padded(&mut out, day, 2);
    assert(out@ =~= nequi_date(date@));
    out
}

/// `s` with each character followed by `rep`.
pub open spec fn interleaved(s: Seq<char>, rep: Seq<char>) -> Seq<char>
    decreases s.len(),
{
    if s.len() == 0 {
        Seq::<char>::empty()
    } else {
        seq![s[0]] + rep + interleaved(s.drop_first(), rep)
    }
}

/// `s` with every non-overlapping occurrence of `pat`, scanning from the
/// left, replaced by `rep` (`str::replace`); an empty `pat` matches before
/// every character and at the end.
pub open spec fn replaced(s: Seq<char>, pat: Seq<char>, rep: Seq<char>) -> Seq<char>
    decreases s.len(),
{
    if pat.len() == 0 {
        rep + interleaved(s, rep)
    } else if s.len() < pat.len() {
        s
    } else if s.subrange(0, pat.len() as int) == pat {
        rep + replaced(s.subrange(pat.len() as int, s.len() as int), pat, rep)
    } else {
        seq![s[0]] + replaced(s.drop_first(), pat, rep)
    }
}

/// Whether `p` occurs in `v` at position `i`.
pub(crate) fn occurs_at(v: &Vec<char>, i: usize, p: &Vec<char>) -> (r: bool)
    requires
        i + p.len() <= v.len(),
    ensures
        r == (v@.subrange(i as int, i + p.len()) == p@),
{
    let mut k: usize = 0;
    while k < p.len()
        invariant
            k <= p.len(),
            i + p.len() <= v.len(),
            forall|j: int| 0 <= j < k ==> v@[i + j] == p@[j],
        decreases p.len() - k,
    {
        if v[i + k] != p[k] {
            assert(v@.subrange(i as int, i + p.len())[k as int] != p@[k as int]);
            return false;
        }
        k = k + 1;
    }
    assert(v@.subrange(i as int, i + p.len()) =~= p@);
    true
}

/// `s` with `pat` replaced by `rep` (see `replaced`).
pub fn replace_text(s: &str, pat: &str, rep: &str) -> (r: String)
    ensures
        r@ == replaced(s@, pat@, rep@),
{
    let v = to_chars(s);
    let p = to_chars(pat);
    let n = v.len();
    let mut out = String::new();
    assert(v@.subrange(0, n as int) =~= s@);
    if p.len() == 0 {
        push_str(&mut out, rep);
        let mut i: usize = 0;
        while i < n
            invariant
                i <= n == v.len(),
                v@ == s@,
                p@.len() == 0,
                out@ + interleaved(v@.subrange(i as int, n as int), rep@) == replaced(s@, pat@, rep@),
            decreases n - i,
        {
            let ghost rest = v@.subrange(i as int, n as int);
            assert(rest.drop_first() =~= v@.subrange(i + 1, n as int));
            push_char(&mut out, v[i]);
            push_str(&mut out, rep);
            proof {
                assert(rest[0] == v@[i as int]);
                assert(out@ + interleaved(v@.subrange(i + 1, n as int), rep@) =~= replaced(s@, pat@, rep@));
            }
            i = i + 1;
        }
        assert(v@.subrange(n as int, n as int) =~= Seq::<char>::empty());
        assert(out@ =~= replaced(s@, pat@, rep@));
        return out;
    }
    assert(v@.subrange(0, n as int) =~= s@);
    let mut i: usize = 0;
    while i < n
        invariant
            i <= n == v.len(),
            v@ == s@,
            p@ == pat@,
            p@.len() > 0,
            out@ + replaced(v@.subrange(i as int, n as int), pat@, rep@) == replaced(s@, pat@, rep@),
        decreases n - i,
    {
        let ghost rest = v@.subrange(i as int, n as int);
        if p.len() <= n - i && occurs_at(&v, i, &p) {
            proof {
                assert(rest.subrange(0, p@.len() as int) =~= v@.subrange(i as int, i + p.len()));
                assert(rest.subrange(p@.len() as int, rest.len() as int) =~= v@.subrange(i + p.len(), n as int));
            }
            push_str(&mut out, rep);
            proof {
                assert(out@ + replaced(v@.subrange(i + p.len(), n as int), pat@, rep@) =~= replaced(s@, pat@, rep@));
            }
            i = i + p.len();
        } else {
            proof {
                assert(rest.drop_first() =~= v@.subrange(i + 1, n as int));
                assert(rest[0] == v@[i as int]);
                if rest.len() >= p@.len() {
                    assert(rest.subrange(0, p@.len() as int) =~= v@.subrange(i as int, i + p.len()));
                } else {
                    let t = rest.drop_first();
                    assert(t.len() < p@.len());
                    assert(replaced(t, pat@, rep@) == t);
                    assert(seq![rest[0]] + t =~= rest);
                }
            }
            push_char(&mut out, v[i]);
            proof {
                assert(out@ + replaced(v@.subrange(i + 1, n as int), pat@, rep@) =~= replaced(s@, pat@, rep@));
            }
            i = i + 1;
        }
    }
    assert(v@.subrange(n as int, n as int) =~= Seq::<char>::empty());
    assert(out@ =~= replaced(s@, pat@, rep@));
    out
}

/// The words of `s`: its maximal runs of non-whitespace characters, in
/// order (`str::split_whitespace`).  A character that is not whitespace
/// extends the last word when the character before it is not whitespace
/// either, and starts a new word otherwise.
pub open spec fn words(s: Seq<char>) -> Seq<Seq<char>>
    decreases s.len(),
{
    if s.len() == 0 {
        Seq::<Seq<char>>::empty()
    } else {
        let w = words(s.drop_last());
        let c = s.last();
        if is_space(c) {
            w
        } else if s.len() > 1 && !is_space(s[s.len() - 2]) {
            w.update(w.len() - 1, w.last().push(c))
        } else {
            w.push(seq![c])
        }
    }
}

/// `ws` joined with single spaces.
pub open spec fn joined(ws: Seq<Seq<char>>) -> Seq<char>
    decreases ws.len(),
{
    if ws.len() == 0 {
        Seq::<char>::empty()
    } else if ws.len() == 1 {
        ws[0]
    } else {
        joined(ws.drop_last()) + seq![' '] + ws.last()
    }
}

/// The words of `s` joined by single spaces: runs of whitespace become one
/// space and none is left at either end.
pub open spec fn normalized(s: Seq<char>) -> Seq<char> {
    joined(words(s))
}

/// The views of a sequence of character vectors.
pub open spec fn chars_of(v: Seq<Vec<char>>) -> Seq<Seq<char>> {
    v.map_values(|w: Vec<char>| w@)
}

proof fn lemma_words_nonempty(s: Seq<char>)
    requires
        s.len() > 0,
        !is_space(s.last()),
    ensures
        words(s).len() > 0,
    decreases s.len(),
{
    if s.len() > 1 && !is_space(s[s.len() - 2]) {
        assert(s.drop_last().last() == s[s.len() - 2]);
        lemma_words_nonempty(s.drop_last());
    }
}

/// The words of `text`.
fn split_words(text: &str) -> (r: Vec<Vec<char>>)
    ensures
        chars_of(r@) == words(text@),
{
    let v = to_chars(text);
    let n = v.len();
    let mut out: Vec<Vec<char>> = Vec::new();
    let mut i: usize = 0;
    assert(chars_of(out@) =~= words(v@.subrange(0, 0)));
    while i < n
        invariant
            i <= n == v.len(),
            v@ == text@,
            chars_of(out@) == words(v@.subrange(0, i as int)),
        decreases n - i,
    {
        let c = v[i];
        let ghost pre = v@.subrange(0, i as int);
        let ghost next = v@.subrange(0, i + 1);
        assert(next.drop_last() =~= pre);
        assert(next.last() == c);
        if is_whitespace(c) {
        } else if i > 0 && !is_whitespace(v[i - 1]) {
            proof {
                assert(next[next.len() - 2] == v@[i - 1]);
                assert(pre.last() == v@[i - 1]);
                lemma_words_nonempty(pre);
            }
            let mut last = out.pop().unwrap();
            last.push(c);
            out.push(last);
            proof {
                assert(chars_of(out@) =~= words(pre).update(words(pre).len() - 1, words(pre).last().push(c)));
            }
        } else {
            let mut w: Vec<char> = Vec::new();
            w.push(c);
            out.push(w);
            proof {
                if i > 0 {
                    assert(next[next.len() - 2] == v@[i - 1]);
                }
                assert(w@ =~= seq![c]);
                assert(chars_of(out@) =~= words(pre).push(seq![c]));
            }
        }
        i = i + 1;
    }
    assert(v@.subrange(0, n as int) =~= text@);
    out
}

/// The first `k` words of `ws` joined with single spaces.
fn join_words(ws: &Vec<Vec<char>>, k: usize) -> (r: String)
    requires
        k <= ws.len(),
    ensures
        r@ == joined(chars_of(ws@).subrange(0, k as int)),
{
    let mut out = String::new();
    let mut j: usize = 0;
    assert(chars_of(ws@).subrange(0, 0) =~= Seq::<Seq<char>>::empty());
    while j < k
        invariant
            j <= k <= ws.len(),
            out@ == joined(chars_of(ws@).subrange(0, j as int)),
        decreases k - j,
    {
        let ghost next = chars_of(ws@).subrange(0, j + 1);
        assert(next.drop_last() =~= chars_of(ws@).subrange(0, j as int));
        assert(next.last() == ws@[j as int]@);
        if j > 0 {
            push_char(&mut out, ' ');
        }
        let w = &ws[j];
        push_chars(&mut out, w, 0, w.len());
        assert(w@.subrange(0, w@.len() as int) =~= w@);
        proof {
            if j == 0 {
                assert(out@ =~= next[0]);
            } else {
                assert(out@ =~= joined(next.drop_last()) + seq![' '] + next.last());
            }
        }
        j = j + 1;
    }
    out
}

/// Collapses whitespace runs of `text` into single spaces and trims it
/// (`split_whitespace` joined with `" "`).
pub fn normalize_spaces(text: &str) -> (r: String)
    ensures
        r@ == normalized(text@),
{
    let ws = split_words(text);
    let r = join_words(&ws, ws.len());
    assert(chars_of(ws@).subrange(0, ws.len() as int) =~= chars_of(ws@));
    r
}

/// E-mail addresses.
pub const EMAIL_PATTERN: &'static str = r"(?i)\b[A-Z0-9._%+-]+@[A-Z0-9.-]+\.[A-Z]{2,}\b";

/// Amounts, with or without a `$` or `COP` marker.
pub const AMOUNT_PATTERN: &'static str = r"(?:(?:\$|COP)\s*)-?\d+(?:[.,]\d{3})*(?:[.,]\d{1,2})?|\b-?\d{1,3}(?:[.,]\d{3})+(?:[.,]\d{1,2})?\b";

/// Numbers of five digits or more.
pub const LONG_NUMBER_PATTERN: &'static str = r"\b\d{5,}\b";

/// A postal address after the word `Dirección`.
pub const ADDRESS_PATTERN: &'static str = r"(?i)\bDirecci[oó]n\b\s+[^$<]+";

/// The last four digits after `Número de tarjeta <kind>`.
pub const CARD_PATTERN: &'static str = r"(?i)(N[uú]mero de tarjeta\s+\w+)\s+\d{4}\b";

/// The cardholder's name in a transactions heading.
pub const HOLDER_PATTERN: &'static str = r"(?i)(Detalle de transacciones:\s*)[^()]+(\s*\(Titular\))";

/// The account holder's name in a statement heading.
pub const HEADER_NAME_PATTERN: &'static str = r"(?i)(Estado de cuenta\s+)[A-ZÁÉÍÓÚÑ][A-ZÁÉÍÓÚÑ ]{4,}";

/// A counterparty after `BRE-B:`.
pub const BRE_B_PATTERN: &'static str = r"(?i)(BRE-B:\s*)[^$<]+";

/// A counterparty after `A:`.
pub const TO_PATTERN: &'static str = r"(?i)(\bA:\s*)[^$<]+";

/// A counterparty after `recibido de`.
pub const RECEIVED_FROM_PATTERN: &'static str = r"(?i)(recibido de\s+)[^$<]+";

/// A counterparty after `Para`.
pub const FOR_PATTERN: &'static str = r"(?i)(\bPara\s+)[^$<]+";

/// A counterparty after `De` (case-sensitive).
pub const FROM_PATTERN: &'static str = r"(\bDe\s+)[^$<]+";

/// `text` with the names after counterparty markers replaced by
/// `<counterparty>`, the markers tried in a fixed order.
pub open spec fn counterparties_hidden(text: Seq<char>) -> Seq<char> {
    let t1 = rewritten(BRE_B_PATTERN@, text, "$1<counterparty>"@);
    let t2 = rewritten(TO_PATTERN@, t1, "$1<counterparty>"@);
    let t3 = rewritten(RECEIVED_FROM_PATTERN@, t2, "$1<counterparty>"@);
    let t4 = rewritten(FOR_PATTERN@, t3, "$1<counterparty>"@);
    rewritten(FROM_PATTERN@, t4, "$1<counterparty>"@)
}

/// `text` with e-mail addresses, amounts, long numbers, addresses, card
/// digits, cardholder names and counterparties replaced by placeholders, in
/// that order, and its whitespace normalized.
pub open spec fn redacted(text: Seq<char>) -> Seq<char> {
    let t1 = rewritten(EMAIL_PATTERN@, text, "<email>"@);
    let t2 = rewritten(AMOUNT_PATTERN@, t1, "<amount>"@);
    let t3 = rewritten(LONG_NUMBER_PATTERN@, t2, "<number>"@);
    let t4 = rewritten(ADDRESS_PATTERN@, t3, "Dirección <address>"@);
    let t5 = rewritten(CARD_PATTERN@, t4, "$1 <card-last4>"@);
    let t6 = rewritten(HOLDER_PATTERN@, t5, "$1<cardholder>$2"@);
    let t7 = rewritten(HEADER_NAME_PATTERN@, t6, "$1<cardholder>"@);
    normalized(counterparties_hidden(t7))
}

/// At most eight words: longer text keeps its first eight words, joined by
/// spaces and followed by ` …`.
pub open spec fn sampled(text: Seq<char>) -> Seq<char> {
    let ws = words(text);
    if ws.len() > 8 {
        joined(ws.subrange(0, 8)) + " …"@
    } else {
        text
    }
}

/// The description kept for a candidate transaction.
pub open spec fn description_sample(text: Seq<char>) -> Seq<char> {
    sampled(counterparties_hidden(redacted(text)))
}

/// The evidence kept for a statement row.
pub open spec fn row_evidence(text: Seq<char>) -> Seq<char> {
    description_sample(redacted(text))
}

/// Replaces the names after counterparty markers by `<counterparty>`.
pub fn redact_counterparties(text: &str) -> (r: String)
    ensures
        r@ == counterparties_hidden(text@),
{
    let t1 = rewrite(BRE_B_PATTERN, text, "$1<counterparty>");
    let t2 = rewrite(TO_PATTERN, t1.as_str(), "$1<counterparty>");
    let t3 = rewrite(RECEIVED_FROM_PATTERN, t2.as_str(), "$1<counterparty>");
    let t4 = rewrite(FOR_PATTERN, t3.as_str(), "$1<counterparty>");
    rewrite(FROM_PATTERN, t4.as_str(), "$1<counterparty>")
}

/// Replaces personal data in a line of statement text by placeholders (see
/// `redacted`).
pub fn redact_line(text: &str) -> (r: String)
    ensures
        r@ == redacted(text@),
{
    let t1 = rewrite(EMAIL_PATTERN, text, "<email>");
    let t2 = rewrite(AMOUNT_PATTERN, t1.as_str(), "<amount>");
    let t3 = rewrite(LONG_NUMBER_PATTERN, t2.as_str(), "<number>");
    let t4 = rewrite(ADDRESS_PATTERN, t3.as_str(), "Dirección <address>");
    let t5 = rewrite(CARD_PATTERN, t4.as_str(), "$1 <card-last4>");
    let t6 = rewrite(HOLDER_PATTERN, t5.as_str(), "$1<cardholder>$2");
    let t7 = rewrite(HEADER_NAME_PATTERN, t6.as_str(), "$1<cardholder>");
    let hidden = redact_counterparties(t7.as_str());
    normalize_spaces(hidden.as_str())
}

/// The redacted description of a candidate, cut to eight words.
pub fn redact_description_sample(text: &str) -> (r: String)
    ensures
        r@ == description_sample(text@),
{
    let line = redact_line(text);
    let sample = redact_counterparties(line.as_str());
    let ws = split_words(sample.as_str());
    if ws.len() > 8 {
        let mut cut = join_words(&ws, 8);
        push_str(&mut cut, " …");
        cut
    } else {
        sample
    }
}

/// The redacted evidence kept for a statement row.
pub fn redact_row_for_evidence(text: &str) -> (r: String)
    ensures
        r@ == row_evidence(text@),
{
    let line = redact_line(text);
    redact_description_sample(line.as_str())
}

/// `t` with each of `pats`, in order, replaced by a space.
pub open spec fn blanked(t: Seq<char>, pats: Seq<Seq<char>>) -> Seq<char>
    decreases pats.len(),
{
    if pats.len() == 0 {
        t
    } else {
        blanked(replaced(t, pats[0], " "@), pats.drop_first())
    }
}

/// `t` with statement boilerplate replaced by spaces.
pub open spec fn scrubbed(t: Seq<char>) -> Seq<char> {
    let t1 = replaced(t, "Virtual"@, " "@);
    let t2 = replaced(t1, "Fisica"@, " "@);
    let t3 = replaced(t2, "Física"@, " "@);
    let t4 = replaced(t3, "-"@, " "@);
    let t5 = replaced(t4, "N/A"@, " "@);
    let t6 = replaced(t5, "1 de 1"@, " "@);
    let t7 = replaced(t6, "0,0000%"@, " "@);
    let t8 = replaced(t7, "0,00%"@, " "@);
    replaced(t8, "0%"@, " "@)
}

/// The description left in a row once its date, its amounts and the
/// statement boilerplate are blanked out, with whitespace normalized.
pub open spec fn row_description(row: Seq<char>, date: Seq<char>) -> Seq<char> {
    let amounts = match regex_matches(MONEY_PATTERN@, row) {
        Some(ms) => ms,
        None => Seq::<Seq<char>>::empty(),
    };
    normalized(scrubbed(blanked(replaced(row, date, " "@), amounts)))
}

/// The description of a statement row (see `row_description`).
pub fn description_from_row(row_text: &str, date: &str) -> (r: String)
    ensures
        r@ == row_description(row_text@, date@),
{
    let mut text = replace_text(row_text, date, " ");
    let amounts = money_tokens(row_text);
    let ghost ms = match regex_matches(MONEY_PATTERN@, row_text@) {
        Some(m) => m,
        None => Seq::<Seq<char>>::empty(),
    };
    assert(amounts.len() == ms.len());
    let ghost start = text@;
    assert(ms.subrange(0, ms.len() as int) =~= ms);
    let mut k: usize = 0;
    while k < amounts.len()
        invariant
            k <= amounts.len() == ms.len(),
            forall|j: int| 0 <= j < ms.len() ==> (#[trigger] amounts@[j]).text@ == ms[j],
            blanked(text@, ms.subrange(k as int, ms.len() as int)) == blanked(start, ms),
        decreases amounts.len() - k,
    {
        let ghost rest = ms.subrange(k as int, ms.len() as int);
        assert(rest.drop_first() =~= ms.subrange(k + 1, ms.len() as int));
        assert(rest[0] == amounts@[k as int].text@);
        text = replace_text(text.as_str(), amounts[k].text.as_str(), " ");
        k = k + 1;
    }
    assert(ms.subrange(ms.len() as int, ms.len() as int) =~= Seq::<Seq<char>>::empty());
    let t1 = replace_text(text.as_str(), "Virtual", " ");
    let t2 = replace_text(t1.as_str(), "Fisica", " ");
    let t3 = replace_text(t2.as_str(), "Física", " ");
    let t4 = replace_text(t3.as_str(), "-", " ");
    let t5 = replace_text(t4.as_str(), "N/A", " ");
    let t6 = replace_text(t5.as_str(), "1 de 1", " ");
    let t7 = replace_text(t6.as_str(), "0,0000%", " ");
    let t8 = replace_text(t7.as_str(), "0,00%", " ");
    let t9 = replace_text(t8.as_str(), "0%", " ");
    normalize_spaces(t9.as_str())
}

/// Unicode lower case of `text` (`str::to_lowercase`).
pub uninterp spec fn lowercase_of(text: Seq<char>) -> Seq<char>;

/// Calls `str::to_lowercase`.  Claimed: the result is what `lowercase_of`
/// names (a function of the text alone).
#[verifier::external_body]
pub(crate) fn lowercase(text: &str) -> (r: String)
    ensures
        r@ == lowercase_of(text@),
{
    text.to_lowercase()
}

/// The text a candidate's duplicate fingerprint digests.
pub open spec fn fingerprint_input(
    institution: Seq<char>,
    label: Seq<char>,
    date: Seq<char>,
    amount: int,
    description: Seq<char>,
) -> Seq<char> {
    institution + "|"@ + label + "|"@ + date + "|"@ + int_digits(amount) + "|"@ + lowercase_of(description)
}

/// The duplicate fingerprint of a candidate: hex of the first sixteen bytes
/// of the SHA-256 digest of `fingerprint_input`.
pub open spec fn fingerprint(
    institution: Seq<char>,
    label: Seq<char>,
    date: Seq<char>,
    amount: int,
    description: Seq<char>,
) -> Seq<char> {
    hex_of(text_sha256(fingerprint_input(institution, label, date, amount, description)).subrange(0, 16))
}

/// The duplicate fingerprint of a movement of `source_document` posted on
/// `posted_date` for `amount_minor` with the given description sample.
pub fn normalized_fingerprint(
    source_document: &SourceDocument,
    posted_date: &str,
    description_sample: &str,
    amount_minor: i64,
) -> (r: String)
    ensures
        r@ == fingerprint(
            source_document.institution_hint@,
            source_document.account_hint.label@,
            posted_date@,
            amount_minor as int,
            description_sample@,
        ),
{
    let mut input = owned(source_document.institution_hint.as_str());
    push_str(&mut input, "|");
    push_str(&mut input, source_document.account_hint.label.as_str());
    push_str(&mut input, "|");
    push_str(&mut input, posted_date);
    push_str(&mut input, "|");
    let amount = format_i64(amount_minor);
    push_str(&mut input, amount.as_str());
    push_str(&mut input, "|");
    let lower = lowercase(description_sample);
    push_str(&mut input, lower.as_str());
    let hash = sha256_bytes(input.as_str());
    let mut out = String::new();
    push_hex(&mut out, &hash, 16);
    out
}

/// Every character of `t` is ASCII.
pub open spec fn all_ascii(t: Seq<char>) -> bool {
    forall|j: int| 0 <= j < t.len() ==> (t[j] as u32) < 128
}

proof fn lemma_hex_ascii(bytes: Seq<u8>)
    ensures
        all_ascii(hex_of(bytes)),
    decreases bytes.len(),
{
    if bytes.len() > 0 {
        lemma_hex_ascii(bytes.drop_last());
        let h = hex_of(bytes.drop_last());
        let a = crate::ids::hex_digit(bytes.last() as int / 16);
        let b = crate::ids::hex_digit(bytes.last() as int % 16);
        assert((a as u32) < 128 && (b as u32) < 128);
        let out = h.push(a).push(b);
        assert forall|j: int| 0 <= j < out.len() implies (out[j] as u32) < 128 by {
            if j < h.len() {
                assert(out[j] == h[j]);
            }
        }
    }
}

proof fn lemma_ascii_prefix_bytes(t: Seq<char>, k: int)
    requires
        all_ascii(t),
        0 <= k <= t.len(),
    ensures
        encode_utf8(t.take(k)).len() == k,
    decreases k,
{
    if k == 0 {
        assert(t.take(0) =~= Seq::<char>::empty());
    } else {
        lemma_ascii_prefix_bytes(t, k - 1);
        assert(t.take(k) =~= t.take(k - 1).push(t[k - 1]));
        crate::text::lemma_encode_push_len(t.take(k - 1), t[k - 1]);
    }
}

/// The SHA-256 digest of a document's content in hex, and the source
/// identifier it gives.
pub fn content_identity(bytes: &[u8]) -> (r: (String, String))
    ensures
        r.0@ == hex_of(crate::ids::sha256_of(bytes@)),
        r.1@ == source_id(r.0@),
{
    let digest = crate::ids::hex_sha256(bytes);
    proof {
        lemma_hex_ascii(crate::ids::sha256_of(bytes@));
        let t = digest@;
        lemma_ascii_prefix_bytes(t, t.len() as int);
        assert(t.take(t.len() as int) =~= t);
        let kept = kept_bytes(t);
        lemma_ascii_prefix_bytes(t, kept);
        assert(encode_utf8(t.take(kept)).len() == kept);
    }
    let id = source_document_id(digest.as_str());
    (digest, id)
}

// ---------------------------------------------------------------------
// Movement rows of a statement, by their text.

/// A Nequi movement date: day and month in one or two digits, and a
/// four-digit year, separated by `/`.
pub const NEQUI_DATE_PATTERN: &'static str = r"\b\d{1,2}/\d{1,2}/\d{4}\b";

/// A Rappi movement date: `YYYY-MM-DD`.
pub const RAPPI_DATE_PATTERN: &'static str = r"\b\d{4}-\d{2}-\d{2}\b";

/// The date a row of a movement table offers: the first match of
/// `pattern`, unless the row's lower-case text holds the table's `header`.
pub open spec fn spec_dated_row(text: Seq<char>, pattern: Seq<char>, header: Seq<char>) -> Option<Seq<char>> {
    match crate::patterns::first_match(pattern, text) {
        Some(date) => if crate::parsers::contains_text(lowercase_of(text), header) { None } else { Some(date) },
        None => None,
    }
}

fn dated_row(text: &str, pattern: &str, header: &str) -> (r: Option<String>)
    ensures
        match r {
            Some(d) => spec_dated_row(text@, pattern@, header@) == Some(d@),
            None => spec_dated_row(text@, pattern@, header@) is None,
        },
{
    let date = match crate::patterns::find_first(pattern, text) {
        Some(d) => d,
        None => return None,
    };
    let lower = lowercase(text);
    if crate::parsers::contains_str(lower.as_str(), header) {
        None
    } else {
        Some(date)
    }
}

/// The text has at least one amount.
pub open spec fn has_amount(text: Seq<char>) -> bool {
    regex_matches(MONEY_PATTERN@, text) matches Some(ms) && ms.len() > 0
}

/// The date of a Nequi movement row (as written in it): a row with a date
/// and an amount that is not the table's header row.
pub open spec fn spec_nequi_movement_date(text: Seq<char>) -> Option<Seq<char>> {
    match spec_dated_row(text, NEQUI_DATE_PATTERN@, "fecha del movimiento"@) {
        Some(d) => if has_amount(text) { Some(d) } else { None },
        None => None,
    }
}

/// The date of a Nequi movement row (see `spec_nequi_movement_date`).
pub fn nequi_movement_date(row_text: &str) -> (r: Option<String>)
    ensures
        match r {
            Some(d) => spec_nequi_movement_date(row_text@) == Some(d@),
            None => spec_nequi_movement_date(row_text@) is None,
        },
{
    let date = match dated_row(row_text, NEQUI_DATE_PATTERN, "fecha del movimiento") {
        Some(d) => d,
        None => return None,
    };
    let money = money_tokens(row_text);
    if money.len() == 0 {
        assert(!has_amount(row_text@));
        None
    } else {
        Some(date)
    }
}

/// The date of a Rappi movement row, unless it is the table's header row;
/// whether the row's cells hold an amount is decided with the cells.
pub fn rappi_movement_date(row_text: &str) -> (r: Option<String>)
    ensures
        match r {
            Some(d) => spec_dated_row(row_text@, RAPPI_DATE_PATTERN@, "detalle de transacciones"@) == Some(d@),
            None => spec_dated_row(row_text@, RAPPI_DATE_PATTERN@, "detalle de transacciones"@) is None,
        },
{
    dated_row(row_text, RAPPI_DATE_PATTERN, "detalle de transacciones")
}

/// The identifier of a statement's candidate number `index` (from zero):
/// `cand_`, the source identifier without `srcdoc_`, `_`, and the number
/// from one, in at least four digits.
pub open spec fn candidate_id(source_id: Seq<char>, index: int) -> Seq<char> {
    "cand_"@ + replaced(source_id, "srcdoc_"@, ""@) + "_"@ + crate::finance::zero_padded((index + 1) as nat, 4)
}

/// The identifier of candidate number `index` (see `candidate_id`).
pub fn candidate_identifier(source_id: &str, index: usize) -> (r: String)
    requires
        index < usize::MAX,
    ensures
        r@ == candidate_id(source_id@, index as int),
{
    let digits = format_u128(index as u128 + 1);
    let mut out = owned("cand_");
    let stripped = replace_text(source_id, "srcdoc_", "");
    push_str(&mut out, stripped.as_str());
    push_str(&mut out, "_");
    let mut pad: usize = digits.unicode_len();
    let ghost padded_start = out@;
    while pad < 4
        invariant
            digits@ == nat_digits((index + 1) as nat),
            digits@.len() <= pad,
            pad <= 4 || pad == digits@.len(),
            out@ == padded_start + Seq::new((pad - digits@.len()) as nat, |_i: int| '0'),
        decreases 4 - pad,
    {
        push_char(&mut out, '0');
        assert(out@ =~= padded_start + Seq::new((pad + 1 - digits@.len()) as nat, |_i: int| '0'));
        pad = pad + 1;
    }
    push_str(&mut out, digits.as_str());
    proof {
        reveal_strlit("cand_");
        reveal_strlit("_");
        if digits@.len() >= 4 {
            assert(Seq::new((pad - digits@.len()) as nat, |_i: int| '0') =~= Seq::<char>::empty());
        }
    }
    assert(out@ =~= candidate_id(source_id@, index as int));
    out
}

} // verus!
