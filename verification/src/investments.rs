//! Investment instruments and the allocation of investment contributions to
//! them, with their fees.
use vstd::prelude::*;
use crate::cdt::{copy_opt, nonempty, opt_seq, spec_nonempty};
use crate::dates::{spec_valid_currency, valid_currency};
use crate::exact::{spec_canonical_exact, spec_canonical, spec_exact_add, spec_parse_exact, ExactDecimal, canonical_exact_decimal};
use crate::ids::{ascii_lower, ascii_upper, digest_id, digest_identifier, to_ascii_lowercase, to_ascii_uppercase};
use crate::review::{owned, validation_failure_with, ReviewError};
use crate::text::{push_char, push_str, str_eq, trim_seq, trimmed};

verus! {

pub struct InstrumentCreateInput {
    pub name: String,
    pub instrument_type: String,
    pub denomination_currency: String,
    pub provider: String,
    pub provider_identifier: Option<String>,
}

pub struct InvestmentInstrument {
    pub id: String,
    pub name: String,
    pub instrument_type: String,
    pub denomination_currency: String,
    pub provider: String,
    pub provider_identifier: Option<String>,
}

pub struct InstrumentResponse {
    pub schema_version: String,
    pub command: String,
    pub ok: bool,
    pub instrument: Option<InvestmentInstrument>,
    pub instruments: Vec<InvestmentInstrument>,
    pub errors: Vec<ReviewError>,
}

pub struct AllocationInput {
    pub contribution_id: String,
    pub allocations: Vec<AllocationLegInput>,
}

pub struct AllocationLegInput {
    pub effective_date: String,
    pub instrument_id: String,
    pub cash_amount_minor: i64,
    pub cash_currency: String,
    pub acquired_quantity: String,
    pub fee_amount_minor: Option<i64>,
    pub fee_currency: Option<String>,
    pub fee_treatment: Option<String>,
    pub fee_component_id: Option<String>,
    pub fee_expense_transaction_id: Option<String>,
}

pub struct AllocationReplacementInput {
    pub allocation_id: String,
    pub allocation: AllocationLegInput,
    pub reason: String,
}

pub struct EffectiveRate {
    pub cost_minor_numerator: i64,
    pub cost_currency: String,
    pub quantity_denominator: String,
    pub instrument_id: String,
}

pub struct InvestmentAllocation {
    pub id: String,
    pub allocation_id: String,
    pub revision: i64,
    pub contribution_id: String,
    pub instrument_id: String,
    pub cash_amount_minor: i64,
    pub cash_currency: String,
    pub acquired_quantity: String,
    pub effective_date: Option<String>,
    pub fee_amount_minor: Option<i64>,
    pub fee_currency: Option<String>,
    pub fee_treatment: Option<String>,
    pub fee_component_id: Option<String>,
    pub fee_expense_transaction_id: Option<String>,
    pub effective_rate: Option<EffectiveRate>,
    pub provenance_source: String,
    pub correction_reason: Option<String>,
    pub replaces_revision_id: Option<String>,
    pub created_at: String,
}

pub struct InvestmentPosition {
    pub account_id: String,
    pub instrument_id: String,
    pub quantity: String,
    pub accumulated_cost_minor: i64,
    pub cost_currency: String,
    pub latest_contributing_operation_id: String,
}

pub struct InvestmentResponse {
    pub schema_version: String,
    pub command: String,
    pub ok: bool,
    pub contribution_id: Option<String>,
    pub contribution_amount_minor: Option<i64>,
    pub contribution_currency: Option<String>,
    pub allocation_status: Option<String>,
    pub unallocated_amount_minor: Option<i64>,
    pub allocations: Vec<InvestmentAllocation>,
    pub allocation_history: Vec<InvestmentAllocation>,
    pub positions: Vec<InvestmentPosition>,
    pub errors: Vec<ReviewError>,
}

/// An allocation leg that passed validation, normalized for storage.
pub struct ValidatedAllocation {
    pub contribution_amount_minor: i64,
    pub instrument_id: String,
    pub cash_amount_minor: i64,
    pub cash_currency: String,
    pub quantity: String,
    pub effective_date: String,
    pub fee_amount_minor: Option<i64>,
    pub fee_currency: Option<String>,
    pub fee_treatment: Option<String>,
    pub fee_component_id: Option<String>,
    pub fee_expense_transaction_id: Option<String>,
}

pub open spec fn investments_schema() -> Seq<char> {
    "tracky.investments.v1"@
}

pub open spec fn single_failure(errors: Seq<ReviewError>, f: (Seq<char>, Seq<char>, Seq<char>)) -> bool {
    &&& errors.len() == 1
    &&& errors[0].category@ == "validation_failure"@
    &&& errors[0].code@ == f.0
    &&& errors[0].message@ == f.1
    &&& errors[0].path@ == f.2
    &&& errors[0].recoverable
    &&& errors[0].details@.len() == 0
}

/// `r` is the failed response of `command` with the one failure `f`.
pub open spec fn is_investment_error(r: InvestmentResponse, command: Seq<char>, f: (Seq<char>, Seq<char>, Seq<char>)) -> bool {
    &&& r.schema_version@ == investments_schema()
    &&& r.command@ == command
    &&& !r.ok
    &&& r.contribution_id is None
    &&& r.contribution_amount_minor is None
    &&& r.contribution_currency is None
    &&& r.allocation_status is None
    &&& r.unallocated_amount_minor is None
    &&& r.allocations@.len() == 0
    &&& r.allocation_history@.len() == 0
    &&& r.positions@.len() == 0
    &&& single_failure(r.errors@, f)
}

/// `r` is the failed instrument response of `command` with the one failure `f`.
pub open spec fn is_instrument_error(r: InstrumentResponse, command: Seq<char>, f: (Seq<char>, Seq<char>, Seq<char>)) -> bool {
    &&& r.schema_version@ == investments_schema()
    &&& r.command@ == command
    &&& !r.ok
    &&& r.instrument is None
    &&& r.instruments@.len() == 0
    &&& single_failure(r.errors@, f)
}

fn one_failure(code: &str, message: &str, path: &str) -> (r: Vec<ReviewError>)
    ensures
        single_failure(r@, (code@, message@, path@)),
{
    let mut errors = Vec::new();
    errors.push(validation_failure_with(code, message, path));
    errors
}

/// The failed investment response of `command` with failure `code` at `path`.
pub fn investment_error(command: &str, code: &str, message: &str, path: &str) -> (r: InvestmentResponse)
    ensures
        is_investment_error(r, command@, (code@, message@, path@)),
{
    InvestmentResponse {
        schema_version: owned("tracky.investments.v1"),
        command: owned(command),
        ok: false,
        contribution_id: None,
        contribution_amount_minor: None,
        contribution_currency: None,
        allocation_status: None,
        unallocated_amount_minor: None,
        allocations: Vec::new(),
        allocation_history: Vec::new(),
        positions: Vec::new(),
        errors: one_failure(code, message, path),
    }
}

/// The failed instrument response of `command` with failure `code` at `path`.
pub fn instrument_error(command: &str, code: &str, message: &str, path: &str) -> (r: InstrumentResponse)
    ensures
        is_instrument_error(r, command@, (code@, message@, path@)),
{
    InstrumentResponse {
        schema_version: owned("tracky.investments.v1"),
        command: owned(command),
        ok: false,
        instrument: None,
        instruments: Vec::new(),
        errors: one_failure(code, message, path),
    }
}

pub open spec fn invalid_fee_failure(path: Seq<char>) -> (Seq<char>, Seq<char>, Seq<char>) {
    ("invalid_fee"@,
        "Fee amount, currency, treatment, component id, and required expense link must form a complete fee component."@,
        path)
}

/// The incomplete-fee failure at `path`.
pub fn invalid_fee(command: &str, path: &str) -> (r: InvestmentResponse)
    ensures
        is_investment_error(r, command@, invalid_fee_failure(path@)),
{
    investment_error(command, "invalid_fee",
        "Fee amount, currency, treatment, component id, and required expense link must form a complete fee component.",
        path)
}

/// The instrument types an instrument may have.
pub open spec fn is_instrument_type(t: Seq<char>) -> bool {
    t == "fiat_currency"@ || t == "dollar_referenced_digital_asset"@ || t == "security"@ || t == "fixed_income"@
        || t == "generic"@
}

/// The text an instrument identifier is a digest of.
pub open spec fn instrument_key(name: Seq<char>, instrument_type: Seq<char>, currency: Seq<char>, provider: Seq<char>, provider_identifier: Option<Seq<char>>) -> Seq<char> {
    let ident = match provider_identifier {
        Some(p) => p,
        None => Seq::<char>::empty(),
    };
    instrument_type + seq!['|'] + currency + seq!['|'] + ascii_lower(provider) + seq!['|'] + ascii_lower(ident)
        + seq!['|'] + ascii_lower(name)
}

/// The stable identifier of an instrument: `instr_` and the hex of the first
/// twelve bytes of the SHA-256 digest of its key.
pub fn instrument_id(
    name: &str,
    instrument_type: &str,
    currency: &str,
    provider: &str,
    provider_identifier: &Option<String>,
) -> (r: String)
    ensures
        r@ == digest_id("instr"@, instrument_key(name@, instrument_type@, currency@, provider@, opt_seq(*provider_identifier))),
{
    let mut key = String::new();
    push_str(&mut key, instrument_type);
    push_char(&mut key, '|');
    push_str(&mut key, currency);
    push_char(&mut key, '|');
    push_str(&mut key, to_ascii_lowercase(provider).as_str());
    push_char(&mut key, '|');
    match provider_identifier {
        Some(p) => push_str(&mut key, to_ascii_lowercase(p.as_str()).as_str()),
        None => {},
    }
    push_char(&mut key, '|');
    push_str(&mut key, to_ascii_lowercase(name).as_str());
    proof {
        let ident = match opt_seq(*provider_identifier) {
            Some(p) => p,
            None => Seq::<char>::empty(),
        };
        assert(ascii_lower(Seq::<char>::empty()) =~= Seq::<char>::empty());
        assert(key@ =~= instrument_key(name@, instrument_type@, currency@, provider@, opt_seq(*provider_identifier)));
    }
    digest_identifier("instr", key.as_str())
}

/// Why an instrument is refused, checked in this order.
pub open spec fn spec_instrument_failure(input: InstrumentCreateInput) -> Option<(Seq<char>, Seq<char>, Seq<char>)> {
    let instrument_type = ascii_lower(trim_seq(input.instrument_type@));
    let currency = ascii_upper(trim_seq(input.denomination_currency@));
    let name = trim_seq(input.name@);
    let provider = trim_seq(input.provider@);
    if !is_instrument_type(instrument_type) {
        Some(("invalid_instrument_type"@, "Instrument type is not supported."@, "type"@))
    } else if !spec_valid_currency(currency) {
        Some(("invalid_currency"@, "Denomination currency must be a three-letter uppercase code."@,
            "denomination_currency"@))
    } else if name.len() == 0 || provider.len() == 0 {
        Some(("required_field"@, "Instrument name and provider are required."@,
            if name.len() == 0 { "name"@ } else { "provider"@ }))
    } else {
        None
    }
}

/// Validates and normalizes a new instrument and gives it its identifier.
pub fn create_instrument(input: InstrumentCreateInput) -> (r: Result<InvestmentInstrument, InstrumentResponse>)
    ensures
        spec_instrument_failure(input) matches Some(f) ==> (r matches Err(e) && is_instrument_error(
            e, "instruments create"@, f)),
        spec_instrument_failure(input) is None ==> (r matches Ok(i) && {
            &&& i.instrument_type@ == ascii_lower(trim_seq(input.instrument_type@))
            &&& i.denomination_currency@ == ascii_upper(trim_seq(input.denomination_currency@))
            &&& i.name@ == trim_seq(input.name@)
            &&& i.provider@ == trim_seq(input.provider@)
            &&& opt_seq(i.provider_identifier) == spec_nonempty(input.provider_identifier)
            &&& i.id@ == digest_id("instr"@, instrument_key(i.name@, i.instrument_type@, i.denomination_currency@,
                i.provider@, opt_seq(i.provider_identifier)))
        }),
{
    let command = "instruments create";
    let instrument_type = to_ascii_lowercase(trimmed(input.instrument_type.as_str()).as_str());
    let t = instrument_type.as_str();
    if !(str_eq(t, "fiat_currency") || str_eq(t, "dollar_referenced_digital_asset") || str_eq(t, "security")
        || str_eq(t, "fixed_income") || str_eq(t, "generic")) {
        return Err(instrument_error(command, "invalid_instrument_type", "Instrument type is not supported.", "type"));
    }
    let currency = to_ascii_uppercase(trimmed(input.denomination_currency.as_str()).as_str());
    if !valid_currency(currency.as_str()) {
        return Err(instrument_error(command, "invalid_currency",
            "Denomination currency must be a three-letter uppercase code.", "denomination_currency"));
    }
    let name = trimmed(input.name.as_str());
    let provider = trimmed(input.provider.as_str());
    if name.unicode_len() == 0 || provider.unicode_len() == 0 {
        return Err(instrument_error(command, "required_field", "Instrument name and provider are required.",
            if name.unicode_len() == 0 { "name" } else { "provider" }));
    }
    let provider_identifier = nonempty(input.provider_identifier);
    let id = instrument_id(name.as_str(), instrument_type.as_str(), currency.as_str(), provider.as_str(),
        &provider_identifier);
    Ok(InvestmentInstrument {
        id,
        name,
        instrument_type,
        denomination_currency: currency,
        provider,
        provider_identifier,
    })
}

/// The response for looking up one instrument.
pub fn inspect_instrument(instrument: Option<InvestmentInstrument>) -> (r: InstrumentResponse)
    ensures
        instrument is None ==> is_instrument_error(r, "instruments inspect"@, ("instrument_not_found"@,
            "Investment instrument was not found."@, "instrument_id"@)),
        instrument is Some ==> r.ok && r.command@ == "instruments inspect"@ && r.schema_version@ == investments_schema()
            && r.instrument == instrument && r.instruments@.len() == 0 && r.errors@.len() == 0,
{
    match instrument {
        None => instrument_error("instruments inspect", "instrument_not_found", "Investment instrument was not found.",
            "instrument_id"),
        Some(i) => InstrumentResponse {
            schema_version: owned("tracky.investments.v1"),
            command: owned("instruments inspect"),
            ok: true,
            instrument: Some(i),
            instruments: Vec::new(),
            errors: Vec::new(),
        },
    }
}

/// Whether `text` parses as a date with the `chrono` pattern `%Y-%m-%d`.
pub open spec fn chrono_parses_ymd(text: Seq<char>) -> bool {
    crate::finance::chrono_ymd(text) is Some
}

/// Whether `text` parses as a date with the `chrono` pattern `%Y-%m-%d`.
pub(crate) fn parses_ymd(text: &str) -> (r: bool)
    ensures
        r == chrono_parses_ymd(text@),
{
    crate::finance::parse_ymd(text).is_some()
}

/// The contribution an allocation draws on, as storage has it.
pub struct ContributionFacts {
    pub amount_minor: i64,
    pub currency: String,
    pub transaction_kind: Option<String>,
    pub account_id: Option<String>,
}

/// The canonical transaction named as the expense of a separate fee.
pub struct FeeExpense {
    pub account_id: Option<String>,
    pub amount_minor: i64,
    pub currency: String,
    pub transaction_kind: Option<String>,
    pub fee_component_id: Option<String>,
}

/// What storage says about the references of one allocation leg.
pub struct AllocationFacts {
    /// The canonical contribution, if it exists.
    pub contribution: Option<ContributionFacts>,
    /// The instrument exists.
    pub instrument_exists: bool,
    /// A canonical expense already carries the (trimmed) fee component id.
    pub component_expensed: bool,
    /// The canonical transaction whose id is the (trimmed) fee expense id.
    pub fee_expense: Option<FeeExpense>,
}

pub open spec fn has_any_fee(input: AllocationLegInput) -> bool {
    input.fee_amount_minor is Some || input.fee_currency is Some || input.fee_treatment is Some
        || input.fee_component_id is Some || input.fee_expense_transaction_id is Some
}

pub open spec fn trim_upper(o: Option<String>) -> Option<Seq<char>> {
    match o {
        Some(s) => Some(ascii_upper(trim_seq(s@))),
        None => None,
    }
}

pub open spec fn trim_lower(o: Option<String>) -> Option<Seq<char>> {
    match o {
        Some(s) => Some(ascii_lower(trim_seq(s@))),
        None => None,
    }
}

/// The separate-fee expense is on the contribution account, negative with
/// the fee as magnitude, in the fee currency, an expense, and carries the
/// fee component.
pub open spec fn expense_matches(x: FeeExpense, contribution_account: Option<String>, fee: int, currency: Seq<char>, component: Seq<char>) -> bool {
    &&& opt_seq(x.account_id) == opt_seq(contribution_account)
    &&& x.amount_minor != i64::MIN
    &&& -x.amount_minor == fee
    &&& x.amount_minor < 0
    &&& x.currency@ == currency
    &&& opt_seq(x.transaction_kind) == Some("expense"@)
    &&& opt_seq(x.fee_component_id) == Some(component)
}

/// Why the fee of a leg is refused (the leg has some fee field).
pub open spec fn spec_fee_failure(input: AllocationLegInput, cash_currency: Seq<char>, c: ContributionFacts, facts: AllocationFacts) -> Option<(Seq<char>, Seq<char>, Seq<char>)> {
    let currency = trim_upper(input.fee_currency);
    let treatment = trim_lower(input.fee_treatment);
    let component = spec_nonempty(input.fee_component_id);
    let expense = spec_nonempty(input.fee_expense_transaction_id);
    if !(input.fee_amount_minor matches Some(a) && a > 0) {
        Some(invalid_fee_failure("fee_amount_minor"@))
    } else if currency is None {
        Some(invalid_fee_failure("fee_currency"@))
    } else if treatment is None {
        Some(invalid_fee_failure("fee_treatment"@))
    } else if component is None {
        Some(invalid_fee_failure("fee_component_id"@))
    } else if !spec_valid_currency(currency->0) || !(treatment->0 == "capitalized"@ || treatment->0 == "separate"@) {
        Some(invalid_fee_failure("fee_treatment"@))
    } else if treatment->0 == "capitalized"@ {
        if currency->0 != cash_currency {
            Some(("capitalized_fee_currency_mismatch"@, "A capitalized fee must use the contribution cost currency."@,
                "fee_currency"@))
        } else if expense is Some {
            Some(("fee_double_count_conflict"@, "A capitalized fee cannot link to an expense transaction."@,
                "fee_expense_transaction_id"@))
        } else if facts.component_expensed {
            Some(("fee_double_count_conflict"@,
                "Fee component already belongs to a canonical expense and cannot be capitalized."@,
                "fee_component_id"@))
        } else {
            None
        }
    } else if expense is None {
        Some(invalid_fee_failure("fee_expense_transaction_id"@))
    } else if !(facts.fee_expense matches Some(x) && expense_matches(x, c.account_id,
        input.fee_amount_minor->0 as int, currency->0, component->0)) {
        Some(("fee_expense_mismatch"@,
            "Separate fee must link to a matching canonical expense on the contribution account."@,
            "fee_expense_transaction_id"@))
    } else {
        None
    }
}

/// Why an allocation leg is refused, checked in this order; `date_parses`
/// says whether the effective date parses as `%Y-%m-%d`.
pub open spec fn spec_allocation_failure(input: AllocationLegInput, facts: AllocationFacts, date_parses: bool) -> Option<(Seq<char>, Seq<char>, Seq<char>)> {
    let cash_currency = ascii_upper(trim_seq(input.cash_currency@));
    if facts.contribution is None {
        Some(("contribution_not_found"@, "Canonical contribution was not found."@, "contribution_id"@))
    } else {
        let c = facts.contribution->0;
        if opt_seq(c.transaction_kind) != Some("investment_contribution"@) || c.amount_minor >= 0 {
            Some(("transaction_not_investment_contribution"@,
                "Only confirmed investment contributions can be allocated."@, "contribution_id"@))
        } else if !facts.instrument_exists {
            Some(("instrument_not_found"@, "Investment instrument was not found."@, "instrument_id"@))
        } else if input.cash_amount_minor <= 0 {
            Some(("invalid_cash_amount"@, "Allocated cash principal must be positive."@, "cash_amount_minor"@))
        } else if vstd::utf8::encode_utf8(input.effective_date@).len() as usize != 10 || !date_parses {
            Some(("invalid_effective_date"@, "Effective date must be a valid YYYY-MM-DD date."@, "effective_date"@))
        } else if !spec_valid_currency(cash_currency) || cash_currency != c.currency@ {
            Some(("cash_currency_mismatch"@, "Allocated cash currency must match the contribution currency."@,
                "cash_currency"@))
        } else if spec_parse_exact(input.acquired_quantity@, false) is None {
            Some(("invalid_quantity"@,
                "Quantity must be a positive plain decimal with at most 38 digits and 18 fractional places."@,
                "quantity"@))
        } else if has_any_fee(input) && spec_fee_failure(input, cash_currency, c, facts) is Some {
            spec_fee_failure(input, cash_currency, c, facts)
        } else if c.amount_minor == i64::MIN {
            Some(("invalid_contribution_amount"@, "Contribution amount is outside supported exact integer limits."@,
                "contribution_id"@))
        } else {
            None
        }
    }
}

/// The leg as stored once valid: currencies and fee fields normalized, the
/// quantity canonical, the contribution amount as a magnitude.
pub open spec fn validated_matches(v: ValidatedAllocation, input: AllocationLegInput, c: ContributionFacts) -> bool {
    let fee = has_any_fee(input);
    &&& v.contribution_amount_minor == -c.amount_minor
    &&& v.instrument_id@ == input.instrument_id@
    &&& v.cash_amount_minor == input.cash_amount_minor
    &&& v.cash_currency@ == ascii_upper(trim_seq(input.cash_currency@))
    &&& spec_canonical_exact(input.acquired_quantity@, false) == Some(v.quantity@)
    &&& v.effective_date@ == input.effective_date@
    &&& v.fee_amount_minor == input.fee_amount_minor
    &&& opt_seq(v.fee_currency) == (if fee { trim_upper(input.fee_currency) } else { None })
    &&& opt_seq(v.fee_treatment) == (if fee { trim_lower(input.fee_treatment) } else { None })
    &&& opt_seq(v.fee_component_id) == (if fee { spec_nonempty(input.fee_component_id) } else { None })
    &&& opt_seq(v.fee_expense_transaction_id) == (if fee { spec_nonempty(input.fee_expense_transaction_id) } else { None })
}

fn trim_upper_opt(o: &Option<String>) -> (r: Option<String>)
    ensures
        opt_seq(r) == trim_upper(*o),
{
    match o {
        Some(s) => Some(to_ascii_uppercase(trimmed(s.as_str()).as_str())),
        None => None,
    }
}

fn trim_lower_opt(o: &Option<String>) -> (r: Option<String>)
    ensures
        opt_seq(r) == trim_lower(*o),
{
    match o {
        Some(s) => Some(to_ascii_lowercase(trimmed(s.as_str()).as_str())),
        None => None,
    }
}

fn opt_str_eq(a: &Option<String>, b: &Option<String>) -> (r: bool)
    ensures
        r == (opt_seq(*a) == opt_seq(*b)),
{
    crate::cdt::opt_eq(a, b)
}

fn opt_is(a: &Option<String>, b: &str) -> (r: bool)
    ensures
        r == (opt_seq(*a) == Some(b@)),
{
    match a {
        Some(x) => str_eq(x.as_str(), b),
        None => false,
    }
}

/// Checks one allocation leg against what storage says of its references,
/// given whether its effective date parses as `%Y-%m-%d`.
pub fn allocation_terms(command: &str, input: &AllocationLegInput, facts: &AllocationFacts, date_parses: bool) -> (r: Result<ValidatedAllocation, InvestmentResponse>)
    ensures
        spec_allocation_failure(*input, *facts, date_parses) matches Some(f) ==> (r matches Err(e)
            && is_investment_error(e, command@, f)),
        spec_allocation_failure(*input, *facts, date_parses) is None ==> (r matches Ok(v)
            && validated_matches(v, *input, facts.contribution->0)),
{
    let c = match &facts.contribution {
        Some(c) => c,
        None => return Err(investment_error(command, "contribution_not_found", "Canonical contribution was not found.",
            "contribution_id")),
    };
    if !opt_is(&c.transaction_kind, "investment_contribution") || c.amount_minor >= 0 {
        return Err(investment_error(command, "transaction_not_investment_contribution",
            "Only confirmed investment contributions can be allocated.", "contribution_id"));
    }
    if !facts.instrument_exists {
        return Err(investment_error(command, "instrument_not_found", "Investment instrument was not found.",
            "instrument_id"));
    }
    if input.cash_amount_minor <= 0 {
        return Err(investment_error(command, "invalid_cash_amount", "Allocated cash principal must be positive.",
            "cash_amount_minor"));
    }
    if input.effective_date.as_str().len() != 10 || !date_parses {
        return Err(investment_error(command, "invalid_effective_date",
            "Effective date must be a valid YYYY-MM-DD date.", "effective_date"));
    }
    let cash_currency = to_ascii_uppercase(trimmed(input.cash_currency.as_str()).as_str());
    if !valid_currency(cash_currency.as_str()) || !str_eq(cash_currency.as_str(), c.currency.as_str()) {
        return Err(investment_error(command, "cash_currency_mismatch",
            "Allocated cash currency must match the contribution currency.", "cash_currency"));
    }
    let quantity = match ExactDecimal::parse(input.acquired_quantity.as_str()) {
        Some(q) => q,
        None => return Err(investment_error(command, "invalid_quantity",
            "Quantity must be a positive plain decimal with at most 38 digits and 18 fractional places.",
            "quantity")),
    };
    let any_fee = input.fee_amount_minor.is_some() || input.fee_currency.is_some() || input.fee_treatment.is_some()
        || input.fee_component_id.is_some() || input.fee_expense_transaction_id.is_some();
    let mut fee_currency: Option<String> = None;
    let mut fee_treatment: Option<String> = None;
    let mut fee_component_id: Option<String> = None;
    let mut fee_expense_transaction_id: Option<String> = None;
    if any_fee {
        let fee_amount = match input.fee_amount_minor {
            Some(a) => if a > 0 { a } else { return Err(invalid_fee(command, "fee_amount_minor")) },
            None => return Err(invalid_fee(command, "fee_amount_minor")),
        };
        let currency = match trim_upper_opt(&input.fee_currency) {
            Some(x) => x,
            None => return Err(invalid_fee(command, "fee_currency")),
        };
        let treatment = match trim_lower_opt(&input.fee_treatment) {
            Some(x) => x,
            None => return Err(invalid_fee(command, "fee_treatment")),
        };
        let component = match nonempty(copy_opt(&input.fee_component_id)) {
            Some(x) => x,
            None => return Err(invalid_fee(command, "fee_component_id")),
        };
        let capitalized = str_eq(treatment.as_str(), "capitalized");
        if !valid_currency(currency.as_str()) || !(capitalized || str_eq(treatment.as_str(), "separate")) {
            return Err(invalid_fee(command, "fee_treatment"));
        }
        let expense = nonempty(copy_opt(&input.fee_expense_transaction_id));
        if capitalized {
            if !str_eq(currency.as_str(), cash_currency.as_str()) {
                return Err(investment_error(command, "capitalized_fee_currency_mismatch",
                    "A capitalized fee must use the contribution cost currency.", "fee_currency"));
            }
            if expense.is_some() {
                return Err(investment_error(command, "fee_double_count_conflict",
                    "A capitalized fee cannot link to an expense transaction.", "fee_expense_transaction_id"));
            }
            if facts.component_expensed {
                return Err(investment_error(command, "fee_double_count_conflict",
                    "Fee component already belongs to a canonical expense and cannot be capitalized.",
                    "fee_component_id"));
            }
        } else {
            if expense.is_none() {
                return Err(invalid_fee(command, "fee_expense_transaction_id"));
            }
            let matches = match &facts.fee_expense {
                Some(x) => opt_str_eq(&x.account_id, &c.account_id) && x.amount_minor != i64::MIN
                    && x.amount_minor < 0 && -x.amount_minor == fee_amount && str_eq(x.currency.as_str(), currency.as_str())
                    && opt_is(&x.transaction_kind, "expense") && opt_is(&x.fee_component_id, component.as_str()),
                None => false,
            };
            if !matches {
                return Err(investment_error(command, "fee_expense_mismatch",
                    "Separate fee must link to a matching canonical expense on the contribution account.",
                    "fee_expense_transaction_id"));
            }
        }
        fee_currency = Some(currency);
        fee_treatment = Some(treatment);
        fee_component_id = Some(component);
        fee_expense_transaction_id = expense;
    }
    if c.amount_minor == i64::MIN {
        return Err(investment_error(command, "invalid_contribution_amount",
            "Contribution amount is outside supported exact integer limits.", "contribution_id"));
    }
    Ok(ValidatedAllocation {
        contribution_amount_minor: -c.amount_minor,
        instrument_id: input.instrument_id.clone(),
        cash_amount_minor: input.cash_amount_minor,
        cash_currency,
        quantity: quantity.canonical(),
        effective_date: input.effective_date.clone(),
        fee_amount_minor: input.fee_amount_minor,
        fee_currency,
        fee_treatment,
        fee_component_id,
        fee_expense_transaction_id,
    })
}

/// Checks one allocation leg, its effective date parsed with `chrono`.
pub fn validate_allocation(command: &str, input: &AllocationLegInput, facts: &AllocationFacts) -> (r: Result<ValidatedAllocation, InvestmentResponse>)
    ensures
        spec_allocation_failure(*input, *facts, chrono_parses_ymd(input.effective_date@)) matches Some(f)
            ==> (r matches Err(e) && is_investment_error(e, command@, f)),
        spec_allocation_failure(*input, *facts, chrono_parses_ymd(input.effective_date@)) is None
            ==> (r matches Ok(v) && validated_matches(v, *input, facts.contribution->0)),
{
    let parses = parses_ymd(input.effective_date.as_str());
    allocation_terms(command, input, facts, parses)
}

/// The fee component a valid leg records, if any.
pub open spec fn leg_component(leg: AllocationLegInput) -> Option<Seq<char>> {
    if has_any_fee(leg) { spec_nonempty(leg.fee_component_id) } else { None }
}

/// The fee expense a valid leg records, if any.
pub open spec fn leg_expense(leg: AllocationLegInput) -> Option<Seq<char>> {
    if has_any_fee(leg) { spec_nonempty(leg.fee_expense_transaction_id) } else { None }
}

/// Why leg `i` of an allocation action is refused given the legs before it.
pub open spec fn leg_fault(legs: Seq<AllocationLegInput>, facts: Seq<AllocationFacts>, i: int) -> Option<(Seq<char>, Seq<char>, Seq<char>)> {
    let leg = legs[i];
    let f = spec_allocation_failure(leg, facts[i], chrono_parses_ymd(leg.effective_date@));
    if f is Some {
        f
    } else if leg_component(leg) is Some && exists|j: int| 0 <= j < i && #[trigger] leg_component(legs[j]) == leg_component(leg) {
        Some(("duplicate_fee_component"@, "A fee component can appear only once in an allocation action."@,
            "fee_component_id"@))
    } else if leg_expense(leg) is Some && exists|j: int| 0 <= j < i && #[trigger] leg_expense(legs[j]) == leg_expense(leg) {
        Some(("duplicate_fee_expense"@,
            "A canonical expense can represent only one fee component in an allocation action."@,
            "fee_expense_transaction_id"@))
    } else {
        None
    }
}

/// The first refused leg among the first `n`.
pub open spec fn batch_fault(legs: Seq<AllocationLegInput>, facts: Seq<AllocationFacts>, n: nat) -> Option<(Seq<char>, Seq<char>, Seq<char>)>
    decreases n,
{
    if n == 0 {
        None
    } else {
        match batch_fault(legs, facts, (n - 1) as nat) {
            Some(f) => Some(f),
            None => leg_fault(legs, facts, n - 1),
        }
    }
}

/// Sum of the cash of the first `n` legs, `None` once a partial sum leaves `i64`.
pub open spec fn checked_cash_sum(legs: Seq<AllocationLegInput>, n: nat) -> Option<int>
    decreases n,
{
    if n == 0 {
        Some(0)
    } else {
        match checked_cash_sum(legs, (n - 1) as nat) {
            Some(s) => if crate::brokerage::in_i64(s + legs[n - 1].cash_amount_minor) {
                Some(s + legs[n - 1].cash_amount_minor)
            } else {
                None
            },
            None => None,
        }
    }
}

/// The allocation would exceed the contribution: what is already allocated
/// plus the new legs (taken as `i64::MAX` when their sum overflows) leaves
/// `i64` or passes the contribution amount.
pub open spec fn spec_overallocated(current: int, new_sum: Option<int>, contribution: int) -> bool {
    let added = match new_sum {
        Some(s) => s,
        None => i64::MAX as int,
    };
    !crate::brokerage::in_i64(current + added) || current + added > contribution
}

/// An allocation is refused as over-allocation exactly when what is
/// already allocated plus the new legs would exceed the contribution (or
/// leave `i64`): allocations never add up to more than was contributed.
pub proof fn law_allocation_within_contribution(current: i64, new_sum: i64, contribution: i64)
    ensures
        spec_overallocated(current as int, Some(new_sum as int), contribution as int) <==> (!crate::brokerage::in_i64(
            current + new_sum) || current + new_sum > contribution),
        !spec_overallocated(current as int, Some(new_sum as int), contribution as int) ==> current + new_sum <= contribution,
{
}

pub proof fn lemma_batch_fault_stays(legs: Seq<AllocationLegInput>, facts: Seq<AllocationFacts>, m: nat, n: nat)
    requires
        m <= n,
        batch_fault(legs, facts, m) is Some,
    ensures
        batch_fault(legs, facts, n) == batch_fault(legs, facts, m),
    decreases n - m,
{
    if m < n {
        lemma_batch_fault_stays(legs, facts, m, (n - 1) as nat);
    }
}

/// Validates every leg of an allocation action and checks that together
/// with `currently_allocated` they do not exceed the contribution.
pub fn allocate_contribution(input: &AllocationInput, facts: &Vec<AllocationFacts>, currently_allocated: i64) -> (r: Result<Vec<ValidatedAllocation>, InvestmentResponse>)
    requires
        facts@.len() == input.allocations@.len(),
    ensures
        input.allocations@.len() == 0 ==> (r matches Err(e) && is_investment_error(e, "investments allocate"@,
            ("allocation_required"@, "At least one allocation is required."@, "allocations"@))),
        input.allocations@.len() > 0 ==> {
            let legs = input.allocations@;
            let n = legs.len();
            &&& batch_fault(legs, facts@, n) matches Some(f) ==> (r matches Err(e)
                && is_investment_error(e, "investments allocate"@, f))
            &&& batch_fault(legs, facts@, n) is None ==> {
                let over = spec_overallocated(currently_allocated as int, checked_cash_sum(legs, n),
                    -facts@[0].contribution->0.amount_minor);
                &&& over ==> (r matches Err(e) && is_investment_error(e, "investments allocate"@,
                    ("contribution_overallocated"@, "Allocation exceeds the contribution's unallocated principal."@,
                        "cash_amount_minor"@)))
                &&& !over ==> (r matches Ok(v) && v@.len() == n && forall|i: int| 0 <= i < n
                    ==> validated_matches(#[trigger] v@[i], legs[i], facts@[i].contribution->0))
            }
        },
{
    let command = "investments allocate";
    let legs = &input.allocations;
    if legs.len() == 0 {
        return Err(investment_error(command, "allocation_required", "At least one allocation is required.",
            "allocations"));
    }
    let mut validated: Vec<ValidatedAllocation> = Vec::new();
    let mut i: usize = 0;
    while i < legs.len()
        invariant
            i <= legs.len(),
            legs@.len() > 0,
            legs@ == input.allocations@,
            command@ == "investments allocate"@,
            facts@.len() == legs@.len(),
            validated@.len() == i,
            batch_fault(legs@, facts@, i as nat) is None,
            forall|k: int| 0 <= k < i ==> validated_matches(#[trigger] validated@[k], legs@[k], facts@[k].contribution->0),
        decreases legs.len() - i,
    {
        let value = match validate_allocation(command, &legs[i], &facts[i]) {
            Ok(v) => v,
            Err(e) => {
                proof {
                    assert(batch_fault(legs@, facts@, (i + 1) as nat) == leg_fault(legs@, facts@, i as int));
                    assert(leg_fault(legs@, facts@, i as int) == spec_allocation_failure(legs@[i as int], facts@[i as int],
                        chrono_parses_ymd(legs@[i as int].effective_date@)));
                    lemma_batch_fault_stays(legs@, facts@, (i + 1) as nat, legs@.len());
                }
                return Err(e);
            },
        };
        let ghost leg = legs@[i as int];
        assert(spec_allocation_failure(leg, facts@[i as int], chrono_parses_ymd(leg.effective_date@)) is None);
        assert(leg_component(leg) == opt_seq(value.fee_component_id));
        assert(leg_expense(leg) == opt_seq(value.fee_expense_transaction_id));
        let mut j: usize = 0;
        while j < i
            invariant
                j <= i,
                i < legs.len(),
                legs@.len() > 0,
                legs@ == input.allocations@,
                command@ == "investments allocate"@,
            command@ == "investments allocate"@,
                facts@.len() == legs@.len(),
                validated@.len() == i,
                batch_fault(legs@, facts@, i as nat) is None,
                leg == legs@[i as int],
                spec_allocation_failure(leg, facts@[i as int], chrono_parses_ymd(leg.effective_date@)) is None,
                leg_component(leg) == opt_seq(value.fee_component_id),
                forall|k: int| 0 <= k < i ==> validated_matches(#[trigger] validated@[k], legs@[k], facts@[k].contribution->0),
                leg_component(leg) is Some ==> forall|k: int| 0 <= k < j ==> #[trigger] leg_component(legs@[k]) != leg_component(leg),
            decreases i - j,
        {
            if value.fee_component_id.is_some() && opt_str_eq(&validated[j].fee_component_id, &value.fee_component_id) {
                proof {
                    assert(validated_matches(validated@[j as int], legs@[j as int], facts@[j as int].contribution->0));
                    assert(leg_component(legs@[j as int]) == leg_component(leg));
                    assert(leg_fault(legs@, facts@, i as int) is Some);
                    lemma_batch_fault_stays(legs@, facts@, (i + 1) as nat, legs@.len());
                }
                return Err(investment_error(command, "duplicate_fee_component",
                    "A fee component can appear only once in an allocation action.", "fee_component_id"));
            }
            proof {
                assert(validated_matches(validated@[j as int], legs@[j as int], facts@[j as int].contribution->0));
            }
            j = j + 1;
        }
        let mut j: usize = 0;
        while j < i
            invariant
                j <= i,
                i < legs.len(),
                legs@.len() > 0,
                legs@ == input.allocations@,
                command@ == "investments allocate"@,
            command@ == "investments allocate"@,
                facts@.len() == legs@.len(),
                validated@.len() == i,
                batch_fault(legs@, facts@, i as nat) is None,
                leg == legs@[i as int],
                spec_allocation_failure(leg, facts@[i as int], chrono_parses_ymd(leg.effective_date@)) is None,
                leg_component(leg) == opt_seq(value.fee_component_id),
                leg_expense(leg) == opt_seq(value.fee_expense_transaction_id),
                forall|k: int| 0 <= k < i ==> validated_matches(#[trigger] validated@[k], legs@[k], facts@[k].contribution->0),
                leg_component(leg) is Some ==> forall|k: int| 0 <= k < i ==> #[trigger] leg_component(legs@[k]) != leg_component(leg),
                leg_expense(leg) is Some ==> forall|k: int| 0 <= k < j ==> #[trigger] leg_expense(legs@[k]) != leg_expense(leg),
            decreases i - j,
        {
            if value.fee_expense_transaction_id.is_some()
                && opt_str_eq(&validated[j].fee_expense_transaction_id, &value.fee_expense_transaction_id) {
                proof {
                    assert(validated_matches(validated@[j as int], legs@[j as int], facts@[j as int].contribution->0));
                    assert(leg_expense(legs@[j as int]) == leg_expense(leg));
                    assert(leg_fault(legs@, facts@, i as int) is Some);
                    lemma_batch_fault_stays(legs@, facts@, (i + 1) as nat, legs@.len());
                }
                return Err(investment_error(command, "duplicate_fee_expense",
                    "A canonical expense can represent only one fee component in an allocation action.",
                    "fee_expense_transaction_id"));
            }
            proof {
                assert(validated_matches(validated@[j as int], legs@[j as int], facts@[j as int].contribution->0));
            }
            j = j + 1;
        }
        assert(leg_fault(legs@, facts@, i as int) is None);
        validated.push(value);
        i = i + 1;
    }
    let mut sum: Option<i64> = Some(0);
    let mut k: usize = 0;
    while k < legs.len()
        invariant
            k <= legs.len(),
            validated@.len() == legs@.len(),
            forall|q: int| 0 <= q < legs@.len() ==> validated_matches(#[trigger] validated@[q], legs@[q], facts@[q].contribution->0),
            (match sum {
                Some(x) => checked_cash_sum(legs@, k as nat) == Some(x as int),
                None => checked_cash_sum(legs@, k as nat) is None,
            }),
        decreases legs.len() - k,
    {
        sum = match sum {
            Some(x) => x.checked_add(validated[k].cash_amount_minor),
            None => None,
        };
        k = k + 1;
    }
    let added = match sum {
        Some(x) => x,
        None => i64::MAX,
    };
    let over = match currently_allocated.checked_add(added) {
        Some(total) => total > validated[0].contribution_amount_minor,
        None => true,
    };
    if over {
        return Err(investment_error(command, "contribution_overallocated",
            "Allocation exceeds the contribution's unallocated principal.", "cash_amount_minor"));
    }
    Ok(validated)
}

/// The earliest stored revision that uses a fee component id.
pub struct ExistingFeeComponent {
    pub allocation_id: String,
    pub fee_amount_minor: Option<i64>,
    pub fee_currency: Option<String>,
    pub fee_treatment: Option<String>,
    pub fee_expense_transaction_id: Option<String>,
}

/// Why a leg's fee identity conflicts with what storage already holds: a
/// component id can only be kept, unchanged, by the allocation being
/// replaced, and an expense can carry only one component.
pub open spec fn spec_fee_conflict(a: ValidatedAllocation, replacing: Option<Seq<char>>, existing: Option<ExistingFeeComponent>, conflicting_expense: bool) -> Option<(Seq<char>, Seq<char>, Seq<char>)> {
    if a.fee_component_id is None {
        None
    } else if existing matches Some(e) && !(replacing == Some(e.allocation_id@)
        && e.fee_amount_minor == a.fee_amount_minor && opt_seq(e.fee_currency) == opt_seq(a.fee_currency)
        && opt_seq(e.fee_treatment) == opt_seq(a.fee_treatment)
        && opt_seq(e.fee_expense_transaction_id) == opt_seq(a.fee_expense_transaction_id)) {
        Some(("fee_double_count_conflict"@,
            "Fee component identity is immutable and cannot be reused with another allocation, treatment, or expense link."@,
            "fee_component_id"@))
    } else if a.fee_expense_transaction_id is Some && conflicting_expense {
        Some(("fee_double_count_conflict"@,
            "Canonical fee expense is already linked to a different durable fee component."@,
            "fee_expense_transaction_id"@))
    } else {
        None
    }
}

/// Checks a validated leg's fee identity against storage.
pub fn validate_fee_component_conflict(
    command: &str,
    allocation: &ValidatedAllocation,
    replacing_allocation_id: &Option<String>,
    existing: &Option<ExistingFeeComponent>,
    conflicting_expense: bool,
) -> (r: Option<InvestmentResponse>)
    ensures
        spec_fee_conflict(*allocation, opt_seq(*replacing_allocation_id), *existing, conflicting_expense) matches Some(f)
            ==> (r matches Some(e) && is_investment_error(e, command@, f)),
        spec_fee_conflict(*allocation, opt_seq(*replacing_allocation_id), *existing, conflicting_expense) is None
            ==> r is None,
{
    if allocation.fee_component_id.is_none() {
        return None;
    }
    match existing {
        Some(e) => {
            let same = opt_is(replacing_allocation_id, e.allocation_id.as_str())
                && e.fee_amount_minor == allocation.fee_amount_minor
                && opt_str_eq(&e.fee_currency, &allocation.fee_currency)
                && opt_str_eq(&e.fee_treatment, &allocation.fee_treatment)
                && opt_str_eq(&e.fee_expense_transaction_id, &allocation.fee_expense_transaction_id);
            if !same {
                return Some(investment_error(command, "fee_double_count_conflict",
                    "Fee component identity is immutable and cannot be reused with another allocation, treatment, or expense link.",
                    "fee_component_id"));
            }
        },
        None => {},
    }
    if allocation.fee_expense_transaction_id.is_some() && conflicting_expense {
        return Some(investment_error(command, "fee_double_count_conflict",
            "Canonical fee expense is already linked to a different durable fee component.",
            "fee_expense_transaction_id"));
    }
    None
}

/// Whether two strings are equal ignoring ASCII case (`str::eq_ignore_ascii_case`).
pub fn eq_ignore_ascii_case(a: &str, b: &str) -> (r: bool)
    ensures
        r == (ascii_lower(a@) == ascii_lower(b@)),
{
    let x = to_ascii_lowercase(a);
    let y = to_ascii_lowercase(b);
    str_eq(x.as_str(), y.as_str())
}

/// A replacement revision ready to be stored.
pub struct AllocationRevision {
    pub allocation: ValidatedAllocation,
    pub revision: i64,
    pub contribution_id: String,
    pub correction_reason: String,
    pub replaces_revision_id: String,
}

/// Why replacing the active revision `current` of an allocation is refused,
/// checked in this order; `consumed` says a CDT consumes the allocation and
/// `other_allocated` is what the contribution's other allocations hold.
pub open spec fn spec_replace_allocation_failure(
    input: AllocationReplacementInput,
    current: Option<InvestmentAllocation>,
    consumed: bool,
    facts: AllocationFacts,
    date_parses: bool,
    other_allocated: int,
) -> Option<(Seq<char>, Seq<char>, Seq<char>)> {
    let leg = input.allocation;
    if trim_seq(input.reason@).len() == 0 {
        Some(("correction_reason_required"@, "A correction reason is required."@, "reason"@))
    } else if current is None {
        Some(("allocation_not_found"@, "Active allocation was not found."@, "allocation_id"@))
    } else {
        let c = current->0;
        if consumed && (opt_seq(c.effective_date) != Some(leg.effective_date@) || leg.instrument_id@ != c.instrument_id@
            || leg.cash_amount_minor != c.cash_amount_minor
            || ascii_lower(trim_seq(leg.cash_currency@)) != ascii_lower(c.cash_currency@)
            || spec_canonical_exact(leg.acquired_quantity@, false) != Some(c.acquired_quantity@)) {
            Some(("allocation_consumed_by_cdt"@,
                "Instrument, principal, currency, and quantity of CDT funding are immutable after consumption."@,
                "allocation_id"@))
        } else if spec_allocation_failure(leg, facts, date_parses) is Some {
            spec_allocation_failure(leg, facts, date_parses)
        } else if !crate::brokerage::in_i64(other_allocated + leg.cash_amount_minor)
            || other_allocated + leg.cash_amount_minor > -facts.contribution->0.amount_minor {
            Some(("contribution_overallocated"@, "Replacement exceeds the contribution's unallocated principal."@,
                "cash_amount_minor"@))
        } else {
            None
        }
    }
}

/// Replaces the active revision `current` of an allocation with a corrected
/// leg.
pub fn replace_allocation(
    input: &AllocationReplacementInput,
    current: Option<InvestmentAllocation>,
    consumed_by_cdt: bool,
    facts: &AllocationFacts,
    other_allocated: i64,
) -> (r: Result<AllocationRevision, InvestmentResponse>)
    requires
        current matches Some(c) ==> c.revision < i64::MAX,
    ensures
        ({
            let f = spec_replace_allocation_failure(*input, current, consumed_by_cdt, *facts,
                chrono_parses_ymd(input.allocation.effective_date@), other_allocated as int);
            &&& f matches Some(f) ==> (r matches Err(e) && is_investment_error(e, "investments replace-allocation"@, f))
            &&& f is None ==> (r matches Ok(rev) && {
                let c = current->0;
                &&& validated_matches(rev.allocation, input.allocation, facts.contribution->0)
                &&& rev.revision == c.revision + 1
                &&& rev.contribution_id@ == c.contribution_id@
                &&& rev.correction_reason@ == trim_seq(input.reason@)
                &&& rev.replaces_revision_id@ == c.id@
            })
        }),
{
    let command = "investments replace-allocation";
    let reason = trimmed(input.reason.as_str());
    if reason.unicode_len() == 0 {
        return Err(investment_error(command, "correction_reason_required", "A correction reason is required.",
            "reason"));
    }
    let c = match current {
        Some(c) => c,
        None => return Err(investment_error(command, "allocation_not_found", "Active allocation was not found.",
            "allocation_id")),
    };
    let leg = &input.allocation;
    if consumed_by_cdt {
        let date_same = opt_is(&c.effective_date, leg.effective_date.as_str());
        let quantity_same = match canonical_exact_decimal(leg.acquired_quantity.as_str(), false) {
            Some(q) => str_eq(q.as_str(), c.acquired_quantity.as_str()),
            None => false,
        };
        if !date_same || !str_eq(leg.instrument_id.as_str(), c.instrument_id.as_str())
            || leg.cash_amount_minor != c.cash_amount_minor
            || !eq_ignore_ascii_case(trimmed(leg.cash_currency.as_str()).as_str(), c.cash_currency.as_str())
            || !quantity_same {
            return Err(investment_error(command, "allocation_consumed_by_cdt",
                "Instrument, principal, currency, and quantity of CDT funding are immutable after consumption.",
                "allocation_id"));
        }
    }
    let validated = match validate_allocation(command, leg, facts) {
        Ok(v) => v,
        Err(e) => return Err(e),
    };
    let over = match other_allocated.checked_add(validated.cash_amount_minor) {
        Some(total) => total > validated.contribution_amount_minor,
        None => true,
    };
    if over {
        return Err(investment_error(command, "contribution_overallocated",
            "Replacement exceeds the contribution's unallocated principal.", "cash_amount_minor"));
    }
    Ok(AllocationRevision {
        allocation: validated,
        revision: c.revision + 1,
        contribution_id: c.contribution_id,
        correction_reason: reason,
        replaces_revision_id: c.id,
    })
}

/// A canonical transaction looked up as a contribution.
pub struct ContributionRecord {
    pub amount_minor: i64,
    pub currency: String,
    pub transaction_kind: Option<String>,
}

/// Stored allocations that cannot be summarized exactly.
#[derive(Debug, Clone, Copy, PartialEq, Eq, Structural)]
pub enum ContributionError {
    InvalidContributionAmount,
    AllocationTotalOverflow,
    Overallocated,
}

/// Sum of the cash of the allocations, `None` once a partial sum leaves `i64`.
pub open spec fn checked_allocated(allocations: Seq<InvestmentAllocation>, n: nat) -> Option<int>
    decreases n,
{
    if n == 0 {
        Some(0)
    } else {
        match checked_allocated(allocations, (n - 1) as nat) {
            Some(s) => if crate::brokerage::in_i64(s + allocations[n - 1].cash_amount_minor) {
                Some(s + allocations[n - 1].cash_amount_minor)
            } else {
                None
            },
            None => None,
        }
    }
}

/// Allocation status of a contribution.
pub open spec fn spec_allocation_status(allocated: int, remaining: int) -> Seq<char> {
    if allocated == 0 {
        "pending_allocation"@
    } else if remaining == 0 {
        "fully_allocated"@
    } else {
        "partially_allocated"@
    }
}

/// A contribution's allocation status says how much of it is allocated:
/// nothing allocated is pending, an allocation that leaves nothing is
/// full, and partial needs both something allocated and something left.
pub proof fn law_allocation_status(allocated: int, remaining: int)
    ensures
        allocated == 0 ==> spec_allocation_status(allocated, remaining) == "pending_allocation"@,
        allocated != 0 && remaining == 0 ==> spec_allocation_status(allocated, remaining) == "fully_allocated"@,
        spec_allocation_status(allocated, remaining) == "partially_allocated"@ <==> (allocated != 0 && remaining != 0),
{
    reveal_strlit("pending_allocation");
    reveal_strlit("fully_allocated");
    reveal_strlit("partially_allocated");
    assert("pending_allocation"@.len() != "partially_allocated"@.len());
    assert("fully_allocated"@.len() != "partially_allocated"@.len());
}

proof fn lemma_zero_allocations(allocations: Seq<InvestmentAllocation>, n: nat)
    requires
        n <= allocations.len(),
        forall|i: int| 0 <= i < allocations.len() ==> (#[trigger] allocations[i]).cash_amount_minor == 0,
    ensures
        checked_allocated(allocations, n) == Some(0int),
    decreases n,
{
    if n > 0 {
        lemma_zero_allocations(allocations, (n - 1) as nat);
        assert(allocations[n - 1].cash_amount_minor == 0);
    }
}

/// A contribution none of whose allocations moves any cash has allocated
/// nothing: its allocated sum is zero, so its status is pending and all of
/// it is unallocated.
pub proof fn law_unallocated_contribution(allocations: Seq<InvestmentAllocation>, amount: int)
    requires
        forall|i: int| 0 <= i < allocations.len() ==> (#[trigger] allocations[i]).cash_amount_minor == 0,
    ensures
        checked_allocated(allocations, allocations.len()) == Some(0int),
        spec_allocation_status(checked_allocated(allocations, allocations.len())->0,
            amount - checked_allocated(allocations, allocations.len())->0) == "pending_allocation"@,
{
    lemma_zero_allocations(allocations, allocations.len());
}

/// A contribution with its active allocations and their history: how much
/// is allocated, what is left, and the allocation status.
pub fn contribution_response(
    command: &str,
    contribution_id: &str,
    contribution: Option<ContributionRecord>,
    allocations: Vec<InvestmentAllocation>,
    allocation_history: Vec<InvestmentAllocation>,
) -> (r: Result<InvestmentResponse, ContributionError>)
    ensures
        contribution is None ==> (r matches Ok(e) && is_investment_error(e, command@, ("contribution_not_found"@,
            "Canonical contribution was not found."@, "contribution_id"@))),
        contribution matches Some(c) ==> {
            let kind_ok = opt_seq(c.transaction_kind) == Some("investment_contribution"@) && c.amount_minor < 0;
            let allocated = checked_allocated(allocations@, allocations@.len());
            let a = allocated->0;
            &&& !kind_ok ==> (r matches Ok(e) && is_investment_error(e, command@, (
                "transaction_not_investment_contribution"@, "Transaction is not an investment contribution."@,
                "contribution_id"@)))
            &&& kind_ok && c.amount_minor == i64::MIN ==> r == Err::<InvestmentResponse, ContributionError>(
                ContributionError::InvalidContributionAmount)
            &&& kind_ok && c.amount_minor != i64::MIN && allocated is None ==> r == Err::<InvestmentResponse, ContributionError>(
                ContributionError::AllocationTotalOverflow)
            &&& kind_ok && c.amount_minor != i64::MIN && allocated is Some
                && !crate::brokerage::in_i64(-c.amount_minor - a) ==> r == Err::<InvestmentResponse, ContributionError>(
                    ContributionError::Overallocated)
            &&& kind_ok && c.amount_minor != i64::MIN && allocated is Some
                && crate::brokerage::in_i64(-c.amount_minor - a) ==> (r matches Ok(resp) && {
                    &&& resp.schema_version@ == investments_schema()
                    &&& resp.command@ == command@
                    &&& resp.ok
                    &&& opt_seq(resp.contribution_id) == Some(contribution_id@)
                    &&& resp.contribution_amount_minor == Some(-c.amount_minor as i64)
                    &&& resp.contribution_currency == Some(c.currency)
                    &&& opt_seq(resp.allocation_status) == Some(spec_allocation_status(a, -c.amount_minor - a))
                    &&& resp.unallocated_amount_minor == Some((-c.amount_minor - a) as i64)
                    &&& resp.allocations@ == allocations@
                    &&& resp.allocation_history@ == allocation_history@
                    &&& resp.positions@.len() == 0
                    &&& resp.errors@.len() == 0
                })
        },
{
    let c = match contribution {
        Some(c) => c,
        None => return Ok(investment_error(command, "contribution_not_found", "Canonical contribution was not found.",
            "contribution_id")),
    };
    if !opt_is(&c.transaction_kind, "investment_contribution") || c.amount_minor >= 0 {
        return Ok(investment_error(command, "transaction_not_investment_contribution",
            "Transaction is not an investment contribution.", "contribution_id"));
    }
    if c.amount_minor == i64::MIN {
        return Err(ContributionError::InvalidContributionAmount);
    }
    let amount = -c.amount_minor;
    let mut allocated: i64 = 0;
    let mut i: usize = 0;
    while i < allocations.len()
        invariant
            i <= allocations.len(),
            checked_allocated(allocations@, i as nat) == Some(allocated as int),
            contribution == Some(c),
            opt_seq(c.transaction_kind) == Some("investment_contribution"@),
            c.amount_minor < 0,
            c.amount_minor != i64::MIN,
        decreases allocations.len() - i,
    {
        allocated = match allocated.checked_add(allocations[i].cash_amount_minor) {
            Some(x) => x,
            None => {
                proof { lemma_checked_allocated_none(allocations@, (i + 1) as nat, allocations@.len()); }
                return Err(ContributionError::AllocationTotalOverflow);
            },
        };
        i = i + 1;
    }
    let remaining = match amount.checked_sub(allocated) {
        Some(x) => x,
        None => return Err(ContributionError::Overallocated),
    };
    let status = if allocated == 0 {
        owned("pending_allocation")
    } else if remaining == 0 {
        owned("fully_allocated")
    } else {
        owned("partially_allocated")
    };
    Ok(InvestmentResponse {
        schema_version: owned("tracky.investments.v1"),
        command: owned(command),
        ok: true,
        contribution_id: Some(owned(contribution_id)),
        contribution_amount_minor: Some(amount),
        contribution_currency: Some(c.currency),
        allocation_status: Some(status),
        unallocated_amount_minor: Some(remaining),
        allocations,
        allocation_history,
        positions: Vec::new(),
        errors: Vec::new(),
    })
}

proof fn lemma_checked_allocated_none(a: Seq<InvestmentAllocation>, m: nat, n: nat)
    requires
        m <= n,
        checked_allocated(a, m) is None,
    ensures
        checked_allocated(a, n) is None,
    decreases n - m,
{
    if m < n {
        lemma_checked_allocated_none(a, m, (n - 1) as nat);
    }
}

// ---------------------------------------------------------------------
// Positions.

/// A current, dated allocation as the positions read it.
pub struct PositionRow {
    pub account_id: String,
    pub instrument_id: String,
    pub acquired_quantity: String,
    pub cash_amount_minor: i64,
    pub cash_currency: String,
    pub fee_amount_minor: Option<i64>,
    pub fee_currency: Option<String>,
    pub fee_treatment: Option<String>,
    pub revision_id: String,
}

/// Why positions cannot be listed.
#[derive(Debug, Clone, Copy, PartialEq, Eq, Structural)]
pub enum PositionError {
    QuantityOverflow,
    CostOverflow,
    CapitalizedFeeCurrencyMismatch,
}

/// A position so far: its exact quantity, accumulated cost and latest
/// contributing revision.
pub struct PositionAggregate {
    pub quantity: ExactDecimal,
    pub cost_minor: i64,
    pub latest_id: String,
}

pub type PositionKey = Seq<Option<Seq<char>>>;

pub open spec fn position_row_key(r: PositionRow) -> PositionKey {
    seq![Some(r.account_id@), Some(r.instrument_id@), Some(r.cash_currency@)]
}

pub open spec fn aggregate_view(a: PositionAggregate) -> ((int, nat), i64, Seq<char>) {
    (a.quantity.pair(), a.cost_minor, a.latest_id@)
}

/// The positions after the rows in order, keyed by account, instrument and
/// currency: quantities add exactly, cash adds to the cost, a capitalized
/// fee (which must be in the cash currency) adds too, and the latest row
/// names the position's latest revision.  `Err(None)` where a stored
/// quantity does not parse, an input on which no position can be built.
pub open spec fn spec_positions(rows: Seq<PositionRow>) -> Result<Map<PositionKey, ((int, nat), i64, Seq<char>)>, Option<PositionError>>
    decreases rows.len(),
{
    if rows.len() == 0 {
        Ok(Map::empty())
    } else {
        match spec_positions(rows.drop_last()) {
            Err(e) => Err(e),
            Ok(m) => {
                let r = rows.last();
                match spec_parse_exact(r.acquired_quantity@, false) {
                    None => Err(None),
                    Some(q) => {
                        let k = position_row_key(r);
                        let e = if m.contains_key(k) { m[k] } else { ((0int, 0nat), 0i64, seq![]) };
                        match spec_exact_add(e.0.0, e.0.1, q.0, q.1) {
                            None => Err(Some(PositionError::QuantityOverflow)),
                            Some(nq) => {
                                let c1 = e.1 + r.cash_amount_minor;
                                if !crate::brokerage::in_i64(c1) {
                                    Err(Some(PositionError::CostOverflow))
                                } else if opt_seq(r.fee_treatment) == Some("capitalized"@) {
                                    if opt_seq(r.fee_currency) != Some(r.cash_currency@) {
                                        Err(Some(PositionError::CapitalizedFeeCurrencyMismatch))
                                    } else {
                                        let c2 = c1 + match r.fee_amount_minor { Some(f) => f as int, None => 0 };
                                        if !crate::brokerage::in_i64(c2) {
                                            Err(Some(PositionError::CostOverflow))
                                        } else {
                                            Ok(m.insert(k, (nq, c2 as i64, r.revision_id@)))
                                        }
                                    }
                                } else {
                                    Ok(m.insert(k, (nq, c1 as i64, r.revision_id@)))
                                }
                            },
                        }
                    },
                }
            },
        }
    }
}

/// Each acquisition adds its cash, and a capitalized fee, to the cost of
/// its position, and leaves every other position as it was.
pub proof fn law_position_cost(rows: Seq<PositionRow>, r: PositionRow, other: PositionKey)
    requires
        other != position_row_key(r),
    ensures
        spec_positions(rows) matches Ok(m) ==> (spec_positions(rows.push(r)) matches Ok(m2) ==> {
            let k = position_row_key(r);
            let before: int = if m.contains_key(k) { m[k].1 as int } else { 0 };
            let fee: int = if opt_seq(r.fee_treatment) == Some("capitalized"@) {
                match r.fee_amount_minor { Some(f) => f as int, None => 0 }
            } else {
                0
            };
            &&& m2.contains_key(k)
            &&& m2[k].1 == before + r.cash_amount_minor + fee
            &&& m2.contains_key(other) == m.contains_key(other)
            &&& m.contains_key(other) ==> m2[other] == m[other]
        }),
{
    assert(rows.push(r).drop_last() =~= rows);
    assert(rows.push(r).last() == r);
}

proof fn lemma_positions_err_stays(rows: Seq<PositionRow>, n: nat)
    requires
        n <= rows.len(),
        spec_positions(rows.subrange(0, n as int)) is Err,
    ensures
        spec_positions(rows) == spec_positions(rows.subrange(0, n as int)),
    decreases rows.len() - n,
{
    if n < rows.len() {
        assert(rows.subrange(0, (n + 1) as int).drop_last() =~= rows.subrange(0, n as int));
        lemma_positions_err_stays(rows, n + 1);
    } else {
        assert(rows.subrange(0, n as int) =~= rows);
    }
}

pub open spec fn aggregates_view(m: crate::ordered::SortedMap<PositionAggregate>) -> Map<PositionKey, ((int, nat), i64, Seq<char>)> {
    m@.map_values(|a: PositionAggregate| aggregate_view(a))
}

pub open spec fn full_key(k: PositionKey) -> bool {
    k.len() == 3 && k[0] is Some && k[1] is Some && k[2] is Some
}

pub open spec fn aggregates_wf(m: crate::ordered::SortedMap<PositionAggregate>) -> bool {
    &&& m.wf()
    &&& forall|i: int| 0 <= i < m.entries@.len() ==> (#[trigger] m.entries@[i]).value.quantity.wf()
    &&& forall|i: int| 0 <= i < m.entries@.len() ==> full_key(#[trigger] m.key_at(i))
}

fn aggregate_positions(rows: &Vec<PositionRow>) -> (r: Result<crate::ordered::SortedMap<PositionAggregate>, PositionError>)
    requires
        spec_positions(rows@) != Err::<Map<PositionKey, ((int, nat), i64, Seq<char>)>, Option<PositionError>>(None),
    ensures
        match spec_positions(rows@) {
            Ok(m) => r matches Ok(t) && aggregates_wf(t) && aggregates_view(t) == m,
            Err(e) => r is Err && e == Some(r->Err_0),
        },
{
    let mut t: crate::ordered::SortedMap<PositionAggregate> = crate::ordered::SortedMap::new();
    assert(aggregates_view(t) =~= Map::empty());
    let mut i: usize = 0;
    while i < rows.len()
        invariant
            i <= rows@.len(),
            aggregates_wf(t),
            spec_positions(rows@) != Err::<Map<PositionKey, ((int, nat), i64, Seq<char>)>, Option<PositionError>>(None),
            spec_positions(rows@.subrange(0, i as int)) == Ok::<Map<PositionKey, ((int, nat), i64, Seq<char>)>, Option<PositionError>>(aggregates_view(t)),
        decreases rows.len() - i,
    {
        let ghost pre = rows@.subrange(0, i + 1);
        assert(pre.drop_last() =~= rows@.subrange(0, i as int));
        let r = &rows[i];
        let q = match ExactDecimal::parse(r.acquired_quantity.as_str()) {
            Some(q) => q,
            None => {
                proof { lemma_positions_err_stays(rows@, (i + 1) as nat); }
                return Err(PositionError::QuantityOverflow);
            },
        };
        let k = crate::replay::key_of(vec![Some(r.account_id.as_str()), Some(r.instrument_id.as_str()), Some(r.cash_currency.as_str())]);
        assert(crate::ordered::kv(k) =~= position_row_key(*r));
        let at = t.find(&k);
        let (cur_q, cur_cost) = match at {
            Some(j) => {
                proof { t.lemma_view_at(j as int); }
                (ExactDecimal { coefficient: t.entries[j].value.quantity.coefficient, scale: t.entries[j].value.quantity.scale },
                    t.entries[j].value.cost_minor)
            },
            None => (ExactDecimal::zero(), 0i64),
        };
        let nq = match cur_q.checked_add(&q) {
            Some(x) => x,
            None => {
                proof { lemma_positions_err_stays(rows@, (i + 1) as nat); }
                return Err(PositionError::QuantityOverflow);
            },
        };
        let c1 = match cur_cost.checked_add(r.cash_amount_minor) {
            Some(x) => x,
            None => {
                proof { lemma_positions_err_stays(rows@, (i + 1) as nat); }
                return Err(PositionError::CostOverflow);
            },
        };
        let capitalized = match &r.fee_treatment {
            Some(tr) => str_eq(tr.as_str(), "capitalized"),
            None => false,
        };
        let cost = if capitalized {
            let same = match &r.fee_currency {
                Some(fc) => str_eq(fc.as_str(), r.cash_currency.as_str()),
                None => false,
            };
            if !same {
                proof { lemma_positions_err_stays(rows@, (i + 1) as nat); }
                return Err(PositionError::CapitalizedFeeCurrencyMismatch);
            }
            let fee: i64 = match r.fee_amount_minor { Some(f) => f, None => 0 };
            match c1.checked_add(fee) {
                Some(x) => x,
                None => {
                    proof { lemma_positions_err_stays(rows@, (i + 1) as nat); }
                    return Err(PositionError::CostOverflow);
                },
            }
        } else {
            c1
        };
        proof { reveal_strlit("capitalized"); }
        let v = PositionAggregate { quantity: nq, cost_minor: cost, latest_id: r.revision_id.clone() };
        let ghost before = t;
        match at {
            Some(j) => t.set_value(j, v),
            None => t.insert_new(k, v),
        }
        proof {
            assert forall|q: int| 0 <= q < t.entries@.len() implies (#[trigger] t.entries@[q]).value.quantity.wf()
                && full_key(t.key_at(q)) by {
                t.lemma_view_at(q);
                if t.key_at(q) != position_row_key(*r) {
                    assert(before@.contains_key(t.key_at(q)));
                    let w = choose|w: int| 0 <= w < before.entries@.len() && #[trigger] before.key_at(w) == t.key_at(q);
                    before.lemma_view_at(w);
                    assert(full_key(before.key_at(w)));
                }
            }
            assert forall|q: int| 0 <= q < t.entries@.len() implies full_key(#[trigger] t.key_at(q)) by {
                assert(t.entries@[q].value.quantity.wf());
            }
            assert(aggregates_view(t) =~= spec_positions(pre)->Ok_0);
        }
        i = i + 1;
    }
    assert(rows@.subrange(0, rows@.len() as int) =~= rows@);
    Ok(t)
}

/// The positions of the current dated allocations, in key order (see
/// `spec_positions`), as the `investments positions` response.
pub fn list_positions(rows: &Vec<PositionRow>) -> (r: Result<InvestmentResponse, PositionError>)
    requires
        spec_positions(rows@) != Err::<Map<PositionKey, ((int, nat), i64, Seq<char>)>, Option<PositionError>>(None),
    ensures
        match spec_positions(rows@) {
            Err(e) => r is Err && e == Some(r->Err_0),
            Ok(m) => r matches Ok(resp) && {
                &&& resp.schema_version@ == investments_schema()
                &&& resp.command@ == "investments positions"@
                &&& resp.ok
                &&& resp.contribution_id is None
                &&& resp.allocations@.len() == 0
                &&& resp.allocation_history@.len() == 0
                &&& resp.errors@.len() == 0
                &&& exists|t: crate::ordered::SortedMap<PositionAggregate>| #![trigger aggregates_view(t)] aggregates_wf(t)
                    && aggregates_view(t) == m && resp.positions@.len() == t.entries@.len()
                    && forall|i: int| 0 <= i < resp.positions@.len() ==> {
                        let k = t.key_at(i);
                        let a = m[k];
                        &&& Some((#[trigger] resp.positions@[i]).account_id@) == k[0]
                        &&& Some(resp.positions@[i].instrument_id@) == k[1]
                        &&& Some(resp.positions@[i].cost_currency@) == k[2]
                        &&& resp.positions@[i].quantity@ == spec_canonical(a.0.0, a.0.1)
                        &&& resp.positions@[i].accumulated_cost_minor == a.1
                        &&& resp.positions@[i].latest_contributing_operation_id@ == a.2
                    }
            },
        },
{
    let t = match aggregate_positions(rows) {
        Ok(t) => t,
        Err(e) => return Err(e),
    };
    let ghost m = aggregates_view(t);
    let mut positions: Vec<InvestmentPosition> = Vec::new();
    let mut i: usize = 0;
    while i < t.entries.len()
        invariant
            i <= t.entries@.len(),
            aggregates_wf(t),
            m == aggregates_view(t),
            positions@.len() == i,
            forall|q: int| 0 <= q < i ==> {
                let k = t.key_at(q);
                let a = m[k];
                &&& Some((#[trigger] positions@[q]).account_id@) == k[0]
                &&& Some(positions@[q].instrument_id@) == k[1]
                &&& Some(positions@[q].cost_currency@) == k[2]
                &&& positions@[q].quantity@ == spec_canonical(a.0.0, a.0.1)
                &&& positions@[q].accumulated_cost_minor == a.1
                &&& positions@[q].latest_contributing_operation_id@ == a.2
            },
        decreases t.entries.len() - i,
    {
        let e = &t.entries[i];
        proof { t.lemma_view_at(i as int); }
        assert(full_key(t.key_at(i as int)));
        positions.push(InvestmentPosition {
            account_id: crate::investment_report::part_text(&e.key, 0),
            instrument_id: crate::investment_report::part_text(&e.key, 1),
            quantity: e.value.quantity.canonical(),
            accumulated_cost_minor: e.value.cost_minor,
            cost_currency: crate::investment_report::part_text(&e.key, 2),
            latest_contributing_operation_id: e.value.latest_id.clone(),
        });
        i = i + 1;
    }
    proof { reveal_strlit("tracky.investments.v1"); reveal_strlit("investments positions"); }
    Ok(InvestmentResponse {
        schema_version: owned("tracky.investments.v1"),
        command: owned("investments positions"),
        ok: true,
        contribution_id: None,
        contribution_amount_minor: None,
        contribution_currency: None,
        allocation_status: None,
        unallocated_amount_minor: None,
        allocations: Vec::new(),
        allocation_history: Vec::new(),
        positions,
        errors: Vec::new(),
    })
}

} // verus!
