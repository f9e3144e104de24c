//! Certificates of deposit (CDTs): constitution, renewal, redemption and
//! corrections of their operation history, with the rules that keep the
//! principal of a lifecycle continuous and its cash reconciled.
use vstd::prelude::*;
use crate::brokerage::in_i64;
use crate::dates::{spec_valid_currency, spec_valid_date, valid_currency, valid_date};
use crate::exact::{canonical_exact_decimal, spec_canonical_exact};
use crate::ids::{ascii_upper, to_ascii_uppercase};
use crate::review::{owned, validation_failure_with, ReviewError};
use crate::text::{seq_lt, str_eq, str_lt, trim_seq, trimmed};

verus! {

pub struct CdtTermsInput {
    pub maturity_date: String,
    pub agreed_rate: Option<String>,
    pub payment_mode: Option<String>,
    pub payment_periodicity: Option<String>,
    pub renewal_terms: Option<String>,
    pub contract_identifier: Option<String>,
    pub allows_partial_redemption: bool,
}

pub struct CdtConstitutionInput {
    pub allocation_id: String,
    pub principal_minor: i64,
    pub currency: String,
    pub constitution_date: String,
    pub terms: CdtTermsInput,
}

pub struct CdtTerms {
    pub maturity_date: String,
    pub agreed_rate: Option<String>,
    pub payment_mode: Option<String>,
    pub payment_periodicity: Option<String>,
    pub renewal_terms: Option<String>,
    pub contract_identifier: Option<String>,
    pub allows_partial_redemption: bool,
}

pub struct CdtOperationReplacement {
    pub effective_date: String,
    pub principal_before_minor: i64,
    pub principal_after_minor: i64,
    pub principal_returned_minor: i64,
    pub external_capital_minor: i64,
    pub capitalized_interest_minor: i64,
    pub gross_interest_minor: i64,
    pub withholding_minor: i64,
    pub other_deductions_minor: i64,
    pub net_cash_received_minor: i64,
    pub funding_allocation_id: Option<String>,
    pub terms: CdtTermsInput,
    pub deduction_component_id: Option<String>,
    pub deduction_expense_transaction_id: Option<String>,
}

pub struct CdtOperationReplacementInput {
    pub operation_id: String,
    pub reason: String,
    pub replacement: CdtOperationReplacement,
}

pub struct CdtRenewalInput {
    pub position_id: String,
    pub effective_date: String,
    pub additional_allocation_id: Option<String>,
    pub external_capital_minor: i64,
    pub capitalized_interest_minor: i64,
    pub gross_interest_minor: i64,
    pub withholding_minor: i64,
    pub other_deductions_minor: i64,
    pub net_cash_received_minor: i64,
    pub deduction_component_id: Option<String>,
    pub deduction_expense_transaction_id: Option<String>,
    pub terms: CdtTermsInput,
}

pub struct CdtRedemptionInput {
    pub position_id: String,
    pub effective_date: String,
    pub principal_returned_minor: i64,
    pub gross_interest_minor: i64,
    pub withholding_minor: i64,
    pub other_deductions_minor: i64,
    pub net_cash_received_minor: i64,
    pub deduction_component_id: Option<String>,
    pub deduction_expense_transaction_id: Option<String>,
}

pub struct CdtOperation {
    pub id: String,
    pub operation_id: String,
    pub revision: i64,
    pub operation_type: String,
    pub effective_date: String,
    pub currency: String,
    pub principal_before_minor: i64,
    pub principal_after_minor: i64,
    pub principal_returned_minor: i64,
    pub external_capital_minor: i64,
    pub capitalized_interest_minor: i64,
    pub gross_interest_minor: i64,
    pub withholding_minor: i64,
    pub other_deductions_minor: i64,
    pub net_cash_received_minor: i64,
    pub funding_allocation_id: Option<String>,
    pub funding_contribution_id: Option<String>,
    pub terms: CdtTerms,
    pub deduction_component_id: Option<String>,
    pub deduction_expense_transaction_id: Option<String>,
    pub provenance_source: String,
    pub correction_reason: Option<String>,
    pub replaces_revision_id: Option<String>,
    pub created_at: String,
}

pub struct CdtPosition {
    pub id: String,
    pub instrument_id: String,
    pub institution_or_issuer: String,
    pub account_id: String,
    pub constitution_allocation_id: String,
    pub constitution_contribution_id: String,
    pub constitution_date: String,
    pub current_principal_minor: i64,
    pub currency: String,
    pub status: String,
    pub current_terms: CdtTerms,
    pub constituent_operation_id: String,
    pub latest_operation_id: String,
}

pub struct CdtResponse {
    pub schema_version: String,
    pub command: String,
    pub ok: bool,
    pub position: Option<CdtPosition>,
    pub positions: Vec<CdtPosition>,
    pub operations: Vec<CdtOperation>,
    pub operation_history: Vec<CdtOperation>,
    pub errors: Vec<ReviewError>,
}

/// Schema version of every CDT response.
pub open spec fn cdt_schema() -> Seq<char> {
    "tracky.cdts.v1"@
}

/// `r` is the failed response of `command` carrying the one recoverable
/// validation failure `f` (code, message, path).
pub open spec fn is_cdt_error(r: CdtResponse, command: Seq<char>, f: (Seq<char>, Seq<char>, Seq<char>)) -> bool {
    &&& r.schema_version@ == cdt_schema()
    &&& r.command@ == command
    &&& !r.ok
    &&& r.position is None
    &&& r.positions@.len() == 0
    &&& r.operations@.len() == 0
    &&& r.operation_history@.len() == 0
    &&& r.errors@.len() == 1
    &&& r.errors@[0].category@ == "validation_failure"@
    &&& r.errors@[0].code@ == f.0
    &&& r.errors@[0].message@ == f.1
    &&& r.errors@[0].path@ == f.2
    &&& r.errors@[0].recoverable
    &&& r.errors@[0].details@.len() == 0
}

/// The failed CDT response of `command` with failure `code` at `path`.
pub fn cdt_error(command: &str, code: &str, message: &str, path: &str) -> (r: CdtResponse)
    ensures
        is_cdt_error(r, command@, (code@, message@, path@)),
{
    let mut errors = Vec::new();
    errors.push(validation_failure_with(code, message, path));
    CdtResponse {
        schema_version: owned("tracky.cdts.v1"),
        command: owned(command),
        ok: false,
        position: None,
        positions: Vec::new(),
        operations: Vec::new(),
        operation_history: Vec::new(),
        errors,
    }
}

/// The trimmed text when it is not empty.
pub open spec fn spec_nonempty(value: Option<String>) -> Option<Seq<char>> {
    match value {
        Some(v) => if trim_seq(v@).len() > 0 { Some(trim_seq(v@)) } else { None },
        None => None,
    }
}

pub open spec fn opt_seq(o: Option<String>) -> Option<Seq<char>> {
    match o {
        Some(s) => Some(s@),
        None => None,
    }
}

/// A present value, trimmed, unless nothing but whitespace is left.
pub fn nonempty(value: Option<String>) -> (r: Option<String>)
    ensures
        opt_seq(r) == spec_nonempty(value),
{
    match value {
        Some(v) => {
            let t = trimmed(v.as_str());
            if t.unicode_len() > 0 { Some(t) } else { None }
        },
        None => None,
    }
}

/// Why contract terms are refused, checked in this order.
pub open spec fn spec_terms_failure(effective: Seq<char>, input: CdtTermsInput) -> Option<(Seq<char>, Seq<char>, Seq<char>)> {
    if !spec_valid_date(effective) {
        Some(("invalid_effective_date"@, "Effective date must use YYYY-MM-DD."@, "effective_date"@))
    } else if !spec_valid_date(input.maturity_date@) || !seq_lt(effective, input.maturity_date@) {
        Some(("invalid_maturity_date"@, "Maturity date must be a valid date after the effective date."@, "maturity_date"@))
    } else if input.agreed_rate matches Some(rate) && spec_canonical_exact(rate@, true) is None {
        Some(("invalid_agreed_rate"@,
            "Agreed rate must be a non-negative plain decimal with at most 38 digits and 18 fractional places."@,
            "agreed_rate"@))
    } else {
        None
    }
}

/// The terms recorded for valid input: the maturity as given, the rate in
/// canonical form, the optional texts trimmed and dropped when empty.
pub open spec fn terms_recorded(t: CdtTerms, input: CdtTermsInput) -> bool {
    &&& t.maturity_date@ == input.maturity_date@
    &&& opt_seq(t.agreed_rate) == (match input.agreed_rate {
        Some(rate) => spec_canonical_exact(rate@, true),
        None => None,
    })
    &&& opt_seq(t.payment_mode) == spec_nonempty(input.payment_mode)
    &&& opt_seq(t.payment_periodicity) == spec_nonempty(input.payment_periodicity)
    &&& opt_seq(t.renewal_terms) == spec_nonempty(input.renewal_terms)
    &&& opt_seq(t.contract_identifier) == spec_nonempty(input.contract_identifier)
    &&& t.allows_partial_redemption == input.allows_partial_redemption
}

/// Validates the contract terms of an operation effective on `effective_date`.
pub fn validate_terms(command: &str, effective_date: &str, input: CdtTermsInput) -> (r: Result<CdtTerms, CdtResponse>)
    ensures
        spec_terms_failure(effective_date@, input) matches Some(f) ==> (r matches Err(e) && is_cdt_error(e, command@, f)),
        spec_terms_failure(effective_date@, input) is None ==> (r matches Ok(t) && terms_recorded(t, input)),
{
    if !valid_date(effective_date) {
        return Err(cdt_error(command, "invalid_effective_date", "Effective date must use YYYY-MM-DD.", "effective_date"));
    }
    if !valid_date(input.maturity_date.as_str()) || !str_lt(effective_date, input.maturity_date.as_str()) {
        return Err(cdt_error(command, "invalid_maturity_date",
            "Maturity date must be a valid date after the effective date.", "maturity_date"));
    }
    let ghost original = input;
    let agreed_rate = match input.agreed_rate {
        Some(rate) => match canonical_exact_decimal(rate.as_str(), true) {
            Some(rate) => Some(rate),
            None => {
                return Err(cdt_error(command, "invalid_agreed_rate",
                    "Agreed rate must be a non-negative plain decimal with at most 38 digits and 18 fractional places.",
                    "agreed_rate"));
            },
        },
        None => None,
    };
    Ok(CdtTerms {
        maturity_date: input.maturity_date,
        agreed_rate,
        payment_mode: nonempty(input.payment_mode),
        payment_periodicity: nonempty(input.payment_periodicity),
        renewal_terms: nonempty(input.renewal_terms),
        contract_identifier: nonempty(input.contract_identifier),
        allows_partial_redemption: input.allows_partial_redemption,
    })
}

/// Why a redemption does not reconcile.
#[derive(Debug, Clone, Copy, PartialEq, Eq, Structural)]
pub enum RedemptionReconciliationError {
    InvalidPrincipal,
    NetCashMismatch,
}

/// Principal left after a redemption: the returned principal must be
/// positive and at most the current principal, and the net cash must be the
/// returned principal plus gross interest less withholding and deductions,
/// every partial sum fitting in `i64`.
pub open spec fn spec_reconcile_redemption(
    before: int,
    returned: int,
    gross: int,
    withholding: int,
    other: int,
    net: int,
) -> Result<int, RedemptionReconciliationError> {
    let after = before - returned;
    let a = returned + gross;
    let b = a - withholding;
    let c = b - other;
    if !(in_i64(after) && returned > 0 && after >= 0) {
        Err(RedemptionReconciliationError::InvalidPrincipal)
    } else if in_i64(a) && in_i64(b) && in_i64(c) && c == net {
        Ok(after)
    } else {
        Err(RedemptionReconciliationError::NetCashMismatch)
    }
}

/// A redemption returns part or all of the principal: it is accepted
/// exactly when the returned principal is positive and at most the
/// principal held, and the net cash is the returned principal plus gross
/// interest less withholding and other deductions (each partial sum
/// fitting in `i64`); the principal left is then what was held less what
/// was returned.
pub proof fn law_redemption_reconciles(before: i64, returned: i64, gross: i64, withholding: i64, other: i64, net: i64)
    ensures
        spec_reconcile_redemption(before as int, returned as int, gross as int, withholding as int, other as int,
            net as int) is Ok <==> (0 < returned <= before && in_i64(returned + gross) && in_i64(returned + gross
            - withholding) && net == returned + gross - withholding - other),
        spec_reconcile_redemption(before as int, returned as int, gross as int, withholding as int, other as int,
            net as int) matches Ok(after) ==> after == before - returned,
        !(0 < returned <= before) ==> spec_reconcile_redemption(before as int, returned as int, gross as int,
            withholding as int, other as int, net as int) == Err::<int, RedemptionReconciliationError>(
            RedemptionReconciliationError::InvalidPrincipal),
{
}

/// A renewal carries its principal forward: it reconciles exactly when the
/// principal after is the principal before plus external capital plus
/// capitalized interest (each partial sum fitting in `i64`) and its
/// interest cash reconciles.
pub proof fn law_renewal_principal(principal: i64, o: CdtOperation)
    ensures
        reconciled_renewal(principal as int, o) <==> (in_i64(principal + o.external_capital_minor)
            && o.principal_after_minor == principal + o.external_capital_minor + o.capitalized_interest_minor
            && in_i64(o.gross_interest_minor - o.capitalized_interest_minor)
            && in_i64(o.gross_interest_minor - o.capitalized_interest_minor - o.withholding_minor)
            && o.net_cash_received_minor == o.gross_interest_minor - o.capitalized_interest_minor - o.withholding_minor
            - o.other_deductions_minor),
{
}

pub fn reconcile_redemption(
    principal_before: i64,
    principal_returned: i64,
    gross_interest: i64,
    withholding: i64,
    other_deductions: i64,
    net_cash: i64,
) -> (r: Result<i64, RedemptionReconciliationError>)
    ensures
        (match r {
            Ok(v) => spec_reconcile_redemption(principal_before as int, principal_returned as int,
                gross_interest as int, withholding as int, other_deductions as int, net_cash as int) == Ok::<int, RedemptionReconciliationError>(v as int),
            Err(e) => spec_reconcile_redemption(principal_before as int, principal_returned as int,
                gross_interest as int, withholding as int, other_deductions as int, net_cash as int) == Err::<int, RedemptionReconciliationError>(e),
        }),
{
    let principal_after = match principal_before.checked_sub(principal_returned) {
        Some(v) => if principal_returned > 0 && v >= 0 { v } else {
            return Err(RedemptionReconciliationError::InvalidPrincipal);
        },
        None => return Err(RedemptionReconciliationError::InvalidPrincipal),
    };
    let expected = match principal_returned.checked_add(gross_interest) {
        Some(a) => match a.checked_sub(withholding) {
            Some(b) => b.checked_sub(other_deductions),
            None => None,
        },
        None => None,
    };
    match expected {
        Some(c) => if c == net_cash { Ok(principal_after) } else {
            Err(RedemptionReconciliationError::NetCashMismatch)
        },
        None => Err(RedemptionReconciliationError::NetCashMismatch),
    }
}

/// Why renewal interest does not reconcile: net cash must be gross interest
/// less capitalized interest, withholding and deductions, every partial
/// difference fitting in `i64`.
pub open spec fn spec_interest_failure(gross: int, capitalized: int, withholding: int, deductions: int, net: int) -> Option<(Seq<char>, Seq<char>, Seq<char>)> {
    let a = gross - capitalized;
    let b = a - withholding;
    let c = b - deductions;
    if !(in_i64(a) && in_i64(b) && in_i64(c)) {
        Some(("net_cash_mismatch"@, "Renewal interest components exceed exact integer limits."@,
            "net_cash_received_minor"@))
    } else if c != net {
        Some(("net_cash_mismatch"@,
            "Renewal net cash must equal gross interest minus capitalized interest, withholding, and other deductions."@,
            "net_cash_received_minor"@))
    } else {
        None
    }
}

/// A renewal's interest cash reconciles exactly when the net cash received
/// is its gross interest less capitalized interest, withholding and other
/// deductions, each partial difference fitting in `i64`; otherwise it is
/// refused as a net cash mismatch.
pub proof fn law_renewal_interest_reconciles(gross: i64, capitalized: i64, withholding: i64, deductions: i64, net: i64)
    ensures
        spec_interest_failure(gross as int, capitalized as int, withholding as int, deductions as int, net as int) is None
            <==> (in_i64(gross - capitalized) && in_i64(gross - capitalized - withholding)
            && net == gross - capitalized - withholding - deductions),
        spec_interest_failure(gross as int, capitalized as int, withholding as int, deductions as int, net as int) matches Some(f)
            ==> f.0 == "net_cash_mismatch"@ && f.2 == "net_cash_received_minor"@,
{
}

pub fn validate_interest_reconciliation(
    command: &str,
    gross: i64,
    capitalized: i64,
    withholding: i64,
    deductions: i64,
    net_cash: i64,
) -> (r: Option<CdtResponse>)
    ensures
        spec_interest_failure(gross as int, capitalized as int, withholding as int, deductions as int, net_cash as int) matches Some(f)
            ==> (r matches Some(e) && is_cdt_error(e, command@, f)),
        spec_interest_failure(gross as int, capitalized as int, withholding as int, deductions as int, net_cash as int) is None
            ==> r is None,
{
    let expected = match gross.checked_sub(capitalized) {
        Some(a) => match a.checked_sub(withholding) {
            Some(b) => b.checked_sub(deductions),
            None => None,
        },
        None => None,
    };
    match expected {
        None => Some(cdt_error(command, "net_cash_mismatch",
            "Renewal interest components exceed exact integer limits.", "net_cash_received_minor")),
        Some(c) => if c != net_cash {
            Some(cdt_error(command, "net_cash_mismatch",
                "Renewal net cash must equal gross interest minus capitalized interest, withholding, and other deductions.",
                "net_cash_received_minor"))
        } else {
            None
        },
    }
}

/// No monetary component of `o` is negative.
pub open spec fn components_nonnegative(o: CdtOperation) -> bool {
    &&& o.principal_before_minor >= 0
    &&& o.principal_after_minor >= 0
    &&& o.principal_returned_minor >= 0
    &&& o.external_capital_minor >= 0
    &&& o.capitalized_interest_minor >= 0
    &&& o.gross_interest_minor >= 0
    &&& o.withholding_minor >= 0
    &&& o.other_deductions_minor >= 0
    &&& o.net_cash_received_minor >= 0
}

/// A lifecycle opens with one positive constitution funded by an allocation.
pub open spec fn reconciled_constitution(o: CdtOperation) -> bool {
    &&& o.operation_type@ == "constitution"@
    &&& o.principal_before_minor == 0
    &&& o.principal_after_minor > 0
    &&& o.external_capital_minor == o.principal_after_minor
    &&& o.funding_allocation_id is Some
}

/// A renewal adds its external capital and capitalized interest to the
/// principal it starts from, and its interest cash reconciles.
pub open spec fn reconciled_renewal(principal: int, o: CdtOperation) -> bool {
    let e1 = principal + o.external_capital_minor;
    let e2 = e1 + o.capitalized_interest_minor;
    &&& in_i64(e1)
    &&& in_i64(e2)
    &&& e2 == o.principal_after_minor
    &&& spec_interest_failure(o.gross_interest_minor as int, o.capitalized_interest_minor as int,
        o.withholding_minor as int, o.other_deductions_minor as int, o.net_cash_received_minor as int) is None
}

/// A redemption reconciles against the principal it starts from, and leaves
/// principal only when the terms in force allow partial redemption.
pub open spec fn reconciled_redemption(principal: int, allows_partial: bool, o: CdtOperation) -> bool {
    &&& spec_reconcile_redemption(principal, o.principal_returned_minor as int, o.gross_interest_minor as int,
        o.withholding_minor as int, o.other_deductions_minor as int, o.net_cash_received_minor as int)
        == Ok::<int, RedemptionReconciliationError>(o.principal_after_minor as int)
    &&& !(o.principal_after_minor > 0 && !allows_partial)
}

/// What is wrong with operation `i` of a lifecycle given the one before it.
pub open spec fn operation_fault(ops: Seq<CdtOperation>, i: int) -> Option<(Seq<char>, Seq<char>)> {
    let o = ops[i];
    if !components_nonnegative(o) {
        Some(("negative_component"@, "CDT operation components cannot be negative."@))
    } else if i == 0 {
        if !reconciled_constitution(o) {
            Some(("invalid_constitution_sequence"@, "Lifecycle must begin with one reconciled positive constitution."@))
        } else {
            None
        }
    } else {
        let p = ops[i - 1];
        if seq_lt(o.effective_date@, p.terms.maturity_date@) || o.principal_before_minor != p.principal_after_minor
            || p.principal_after_minor == 0 {
            Some(("inconsistent_lifecycle_sequence"@,
                "Replacement must preserve chronological maturity and principal continuity."@))
        } else if o.operation_type@ == "renewal"@ {
            if !reconciled_renewal(p.principal_after_minor as int, o) {
                Some(("inconsistent_renewal"@, "Replacement renewal does not reconcile principal or interest cash."@))
            } else {
                None
            }
        } else if o.operation_type@ == "redemption"@ {
            if !reconciled_redemption(p.principal_after_minor as int, p.terms.allows_partial_redemption, o) {
                Some(("inconsistent_redemption"@,
                    "Replacement redemption does not reconcile principal, contract policy, or net cash."@))
            } else {
                None
            }
        } else {
            Some(("invalid_operation_sequence"@, "Constitution can appear only once at the beginning."@))
        }
    }
}

/// The fault of the first of the first `n` operations that has one.
pub open spec fn first_fault(ops: Seq<CdtOperation>, n: nat) -> Option<(Seq<char>, Seq<char>)>
    decreases n,
{
    if n == 0 {
        None
    } else {
        match first_fault(ops, (n - 1) as nat) {
            Some(f) => Some(f),
            None => operation_fault(ops, n - 1),
        }
    }
}

/// What `operation_fault` reports for operation `i`.
fn operation_fault_at(ops: &Vec<CdtOperation>, i: usize) -> (r: Option<(&'static str, &'static str)>)
    requires
        i < ops.len(),
    ensures
        r is None <==> operation_fault(ops@, i as int) is None,
        r matches Some((c, m)) ==> operation_fault(ops@, i as int) == Some((c@, m@)),
{
    let o = &ops[i];
    if o.principal_before_minor < 0 || o.principal_after_minor < 0 || o.principal_returned_minor < 0
        || o.external_capital_minor < 0 || o.capitalized_interest_minor < 0 || o.gross_interest_minor < 0
        || o.withholding_minor < 0 || o.other_deductions_minor < 0 || o.net_cash_received_minor < 0 {
        return Some(("negative_component", "CDT operation components cannot be negative."));
    }
    if i == 0 {
        if !str_eq(o.operation_type.as_str(), "constitution") || o.principal_before_minor != 0
            || o.principal_after_minor <= 0 || o.external_capital_minor != o.principal_after_minor
            || o.funding_allocation_id.is_none() {
            return Some(("invalid_constitution_sequence", "Lifecycle must begin with one reconciled positive constitution."));
        }
        return None;
    }
    let p = &ops[i - 1];
    let principal = p.principal_after_minor;
    if str_lt(o.effective_date.as_str(), p.terms.maturity_date.as_str()) || o.principal_before_minor != principal
        || principal == 0 {
        return Some(("inconsistent_lifecycle_sequence",
            "Replacement must preserve chronological maturity and principal continuity."));
    }
    if str_eq(o.operation_type.as_str(), "renewal") {
        let expected = match principal.checked_add(o.external_capital_minor) {
            Some(e1) => e1.checked_add(o.capitalized_interest_minor),
            None => None,
        };
        let interest = match o.gross_interest_minor.checked_sub(o.capitalized_interest_minor) {
            Some(a) => match a.checked_sub(o.withholding_minor) {
                Some(b) => b.checked_sub(o.other_deductions_minor),
                None => None,
            },
            None => None,
        };
        let interest_ok = match interest {
            Some(c) => c == o.net_cash_received_minor,
            None => false,
        };
        let principal_ok = match expected {
            Some(e) => e == o.principal_after_minor,
            None => false,
        };
        if !principal_ok || !interest_ok {
            return Some(("inconsistent_renewal", "Replacement renewal does not reconcile principal or interest cash."));
        }
        return None;
    }
    if str_eq(o.operation_type.as_str(), "redemption") {
        let reconciliation = reconcile_redemption(principal, o.principal_returned_minor, o.gross_interest_minor,
            o.withholding_minor, o.other_deductions_minor, o.net_cash_received_minor);
        let reconciled = match reconciliation {
            Ok(after) => after == o.principal_after_minor,
            Err(_) => false,
        };
        if !reconciled || (o.principal_after_minor > 0 && !p.terms.allows_partial_redemption) {
            return Some(("inconsistent_redemption",
                "Replacement redemption does not reconcile principal, contract policy, or net cash."));
        }
        return None;
    }
    Some(("invalid_operation_sequence", "Constitution can appear only once at the beginning."))
}

/// Checks a whole lifecycle, in date order, reporting the first faulty
/// operation.
pub fn validate_operation_sequence(command: &str, operations: &Vec<CdtOperation>) -> (r: Option<CdtResponse>)
    ensures
        first_fault(operations@, operations@.len()) is None ==> r is None,
        first_fault(operations@, operations@.len()) matches Some(f) ==> (r matches Some(e) && is_cdt_error(
            e, command@, (f.0, f.1, "replacement"@))),
{
    let mut i: usize = 0;
    while i < operations.len()
        invariant
            i <= operations.len(),
            first_fault(operations@, i as nat) is None,
        decreases operations.len() - i,
    {
        match operation_fault_at(operations, i) {
            Some((code, message)) => {
                proof {
                    lemma_first_fault_stays(operations@, (i + 1) as nat, operations@.len());
                }
                return Some(cdt_error(command, code, message, "replacement"));
            },
            None => {},
        }
        i = i + 1;
    }
    None
}

/// Once a fault is found among the first `m` operations, it is the fault of
/// every longer prefix.
pub proof fn lemma_first_fault_stays(ops: Seq<CdtOperation>, m: nat, n: nat)
    requires
        m <= n,
        first_fault(ops, m) is Some,
    ensures
        first_fault(ops, n) == first_fault(ops, m),
    decreases n - m,
{
    if m < n {
        lemma_first_fault_stays(ops, m, (n - 1) as nat);
    }
}

/// Without a fault among the first `n` operations, none of them has one.
pub proof fn lemma_no_fault_each(ops: Seq<CdtOperation>, n: nat, i: int)
    requires
        first_fault(ops, n) is None,
        0 <= i < n,
    ensures
        operation_fault(ops, i) is None,
    decreases n,
{
    if i < n - 1 {
        lemma_no_fault_each(ops, (n - 1) as nat, i);
    }
}

/// A lifecycle that validates is continuous: it opens with a positive
/// constitution, no operation after the first starts before the maturity of
/// the one before it, each starts from the principal the previous one left,
/// which was not zero, and no principal is negative.
pub proof fn law_valid_lifecycle_is_continuous(ops: Seq<CdtOperation>)
    requires
        ops.len() > 0,
        first_fault(ops, ops.len()) is None,
    ensures
        ops[0].operation_type@ == "constitution"@,
        ops[0].principal_after_minor > 0,
        forall|i: int| 0 <= i < ops.len() ==> #[trigger] ops[i].principal_after_minor >= 0,
        forall|i: int| 0 < i < ops.len() ==> {
            &&& #[trigger] ops[i].principal_before_minor == ops[i - 1].principal_after_minor
            &&& ops[i - 1].principal_after_minor != 0
            &&& !seq_lt(ops[i].effective_date@, ops[i - 1].terms.maturity_date@)
            &&& (ops[i].operation_type@ == "renewal"@ || ops[i].operation_type@ == "redemption"@)
        },
{
    lemma_no_fault_each(ops, ops.len(), 0);
    assert forall|i: int| 0 <= i < ops.len() implies #[trigger] ops[i].principal_after_minor >= 0 by {
        lemma_no_fault_each(ops, ops.len(), i);
    }
    assert forall|i: int| 0 < i < ops.len() implies {
        &&& #[trigger] ops[i].principal_before_minor == ops[i - 1].principal_after_minor
        &&& ops[i - 1].principal_after_minor != 0
        &&& !seq_lt(ops[i].effective_date@, ops[i - 1].terms.maturity_date@)
        &&& (ops[i].operation_type@ == "renewal"@ || ops[i].operation_type@ == "redemption"@)
    } by {
        lemma_no_fault_each(ops, ops.len(), i);
    }
}

/// A copy of an optional string.
pub fn copy_opt(o: &Option<String>) -> (r: Option<String>)
    ensures
        r == *o,
{
    match o {
        Some(s) => Some(s.clone()),
        None => None,
    }
}

pub fn copy_terms(t: &CdtTerms) -> (r: CdtTerms)
    ensures
        r == *t,
{
    CdtTerms {
        maturity_date: t.maturity_date.clone(),
        agreed_rate: copy_opt(&t.agreed_rate),
        payment_mode: copy_opt(&t.payment_mode),
        payment_periodicity: copy_opt(&t.payment_periodicity),
        renewal_terms: copy_opt(&t.renewal_terms),
        contract_identifier: copy_opt(&t.contract_identifier),
        allows_partial_redemption: t.allows_partial_redemption,
    }
}

pub fn copy_terms_input(t: &CdtTermsInput) -> (r: CdtTermsInput)
    ensures
        r == *t,
{
    CdtTermsInput {
        maturity_date: t.maturity_date.clone(),
        agreed_rate: copy_opt(&t.agreed_rate),
        payment_mode: copy_opt(&t.payment_mode),
        payment_periodicity: copy_opt(&t.payment_periodicity),
        renewal_terms: copy_opt(&t.renewal_terms),
        contract_identifier: copy_opt(&t.contract_identifier),
        allows_partial_redemption: t.allows_partial_redemption,
    }
}

pub fn copy_cdt_operation(o: &CdtOperation) -> (r: CdtOperation)
    ensures
        r == *o,
{
    CdtOperation {
        id: o.id.clone(),
        operation_id: o.operation_id.clone(),
        revision: o.revision,
        operation_type: o.operation_type.clone(),
        effective_date: o.effective_date.clone(),
        currency: o.currency.clone(),
        principal_before_minor: o.principal_before_minor,
        principal_after_minor: o.principal_after_minor,
        principal_returned_minor: o.principal_returned_minor,
        external_capital_minor: o.external_capital_minor,
        capitalized_interest_minor: o.capitalized_interest_minor,
        gross_interest_minor: o.gross_interest_minor,
        withholding_minor: o.withholding_minor,
        other_deductions_minor: o.other_deductions_minor,
        net_cash_received_minor: o.net_cash_received_minor,
        funding_allocation_id: copy_opt(&o.funding_allocation_id),
        funding_contribution_id: copy_opt(&o.funding_contribution_id),
        terms: copy_terms(&o.terms),
        deduction_component_id: copy_opt(&o.deduction_component_id),
        deduction_expense_transaction_id: copy_opt(&o.deduction_expense_transaction_id),
        provenance_source: o.provenance_source.clone(),
        correction_reason: copy_opt(&o.correction_reason),
        replaces_revision_id: copy_opt(&o.replaces_revision_id),
        created_at: o.created_at.clone(),
    }
}

/// The canonical transaction that carries a deduction component id.
pub struct DeductionExpense {
    pub id: String,
    pub amount_minor: i64,
    pub currency: String,
    pub transaction_kind: Option<String>,
}

/// What storage says about a deduction component id.
pub struct DeductionFacts {
    /// An allocation revision or a CDT operation already uses the id.
    pub component_used: bool,
    /// The canonical transaction carrying the id, if any.
    pub canonical_expense: Option<DeductionExpense>,
}

/// Why the identity of an `amount` of other deductions is refused: a zero
/// amount takes no identity; a positive one needs an unused component id,
/// and a linked expense exactly when storage has one for the component, of
/// the opposite amount, in the currency, of kind `expense`.
pub open spec fn spec_deduction_failure(
    amount: int,
    currency: Seq<char>,
    component_id: Option<String>,
    expense_id: Option<String>,
    facts: DeductionFacts,
) -> Option<(Seq<char>, Seq<char>, Seq<char>)> {
    let component = spec_nonempty(component_id);
    let expense = spec_nonempty(expense_id);
    if amount == 0 {
        if component is Some || expense is Some {
            Some(("unexpected_deduction_identity"@, "Deduction identity requires a positive other deduction."@,
                "deduction_component_id"@))
        } else {
            None
        }
    } else if component is None {
        Some(("deduction_component_required"@, "Other deductions require a durable component identity."@,
            "deduction_component_id"@))
    } else if facts.component_used {
        Some(("deduction_double_count_conflict"@, "Deduction component identity is already used."@,
            "deduction_component_id"@))
    } else {
        let linked_ok = match (expense, facts.canonical_expense) {
            (None, None) => true,
            (Some(e), Some(x)) => x.id@ == e && x.amount_minor == -amount && x.currency@ == currency
                && opt_seq(x.transaction_kind) == Some("expense"@),
            _ => false,
        };
        if linked_ok {
            None
        } else {
            Some(("deduction_expense_conflict"@,
                "A linked deduction expense must match component, amount, currency, and expense treatment exactly."@,
                "deduction_expense_transaction_id"@))
        }
    }
}

/// Checks the durable identity of other deductions.
pub fn validate_deduction(
    command: &str,
    amount: i64,
    currency: &str,
    component_id: &Option<String>,
    expense_id: &Option<String>,
    facts: &DeductionFacts,
) -> (r: Option<CdtResponse>)
    requires
        amount >= 0,
    ensures
        spec_deduction_failure(amount as int, currency@, *component_id, *expense_id, *facts) matches Some(f)
            ==> (r matches Some(e) && is_cdt_error(e, command@, f)),
        spec_deduction_failure(amount as int, currency@, *component_id, *expense_id, *facts) is None ==> r is None,
{
    let component = nonempty(copy_opt(component_id));
    let expense = nonempty(copy_opt(expense_id));
    if amount == 0 {
        if component.is_some() || expense.is_some() {
            return Some(cdt_error(command, "unexpected_deduction_identity",
                "Deduction identity requires a positive other deduction.", "deduction_component_id"));
        }
        return None;
    }
    if component.is_none() {
        return Some(cdt_error(command, "deduction_component_required",
            "Other deductions require a durable component identity.", "deduction_component_id"));
    }
    if facts.component_used {
        return Some(cdt_error(command, "deduction_double_count_conflict",
            "Deduction component identity is already used.", "deduction_component_id"));
    }
    let linked_ok = match (&expense, &facts.canonical_expense) {
        (None, None) => true,
        (Some(e), Some(x)) => {
            let kind_ok = match &x.transaction_kind {
                Some(k) => str_eq(k.as_str(), "expense"),
                None => false,
            };
            str_eq(x.id.as_str(), e.as_str()) && x.amount_minor as i128 == -(amount as i128)
                && str_eq(x.currency.as_str(), currency) && kind_ok
        },
        _ => false,
    };
    if linked_ok {
        None
    } else {
        Some(cdt_error(command, "deduction_expense_conflict",
            "A linked deduction expense must match component, amount, currency, and expense treatment exactly.",
            "deduction_expense_transaction_id"))
    }
}

/// The allocation proposed to fund additional CDT capital, as storage has it.
pub struct FundingAllocation {
    pub instrument_id: String,
    pub amount_minor: i64,
    pub currency: String,
    pub account_id: Option<String>,
}

/// What storage says about the additional capital of a renewal.
pub struct FundingFacts {
    /// The active allocation named by the renewal, if it exists.
    pub allocation: Option<FundingAllocation>,
    /// Instrument and account of the CDT position.
    pub position_instrument_id: String,
    pub position_account_id: String,
    /// The allocation is already consumed by a CDT lifecycle.
    pub allocation_used: bool,
}

/// Outcome of checking additional capital: the funding allocation id (none
/// without external capital), or the failure.
pub open spec fn spec_funding(
    allocation_id: Option<String>,
    external_capital: int,
    currency: Seq<char>,
    facts: FundingFacts,
) -> Result<Option<Seq<char>>, (Seq<char>, Seq<char>, Seq<char>)> {
    if external_capital == 0 {
        if allocation_id is Some {
            Err(("unexpected_funding_allocation"@, "A funding allocation requires positive external capital."@,
                "additional_allocation_id"@))
        } else {
            Ok(None)
        }
    } else if allocation_id is None {
        Err(("additional_capital_not_reconciled"@, "Additional principal requires a confirmed allocation."@,
            "additional_allocation_id"@))
    } else if facts.allocation is None {
        Err(("additional_allocation_not_found"@, "Active additional-capital allocation was not found."@,
            "additional_allocation_id"@))
    } else {
        let a = facts.allocation->0;
        if a.amount_minor != external_capital || a.currency@ != currency
            || a.instrument_id@ != facts.position_instrument_id@
            || opt_seq(a.account_id) != Some(facts.position_account_id@) {
            Err(("additional_capital_mismatch"@,
                "Additional allocation must exactly match the CDT instrument, account, currency, and capital."@,
                "additional_allocation_id"@))
        } else if facts.allocation_used {
            Err(("allocation_already_consumed"@, "Funding allocation is already consumed by a CDT lifecycle."@,
                "additional_allocation_id"@))
        } else {
            Ok(opt_seq(allocation_id))
        }
    }
}

/// Checks that additional capital is funded by exactly one matching,
/// unconsumed allocation.
pub fn validate_additional_funding(
    command: &str,
    allocation_id: &Option<String>,
    external_capital: i64,
    currency: &str,
    facts: &FundingFacts,
) -> (r: Result<Option<String>, CdtResponse>)
    ensures
        spec_funding(*allocation_id, external_capital as int, currency@, *facts) matches Ok(a)
            ==> (r matches Ok(x) && opt_seq(x) == a),
        spec_funding(*allocation_id, external_capital as int, currency@, *facts) matches Err(f)
            ==> (r matches Err(e) && is_cdt_error(e, command@, f)),
{
    if external_capital == 0 {
        if allocation_id.is_some() {
            return Err(cdt_error(command, "unexpected_funding_allocation",
                "A funding allocation requires positive external capital.", "additional_allocation_id"));
        }
        return Ok(None);
    }
    if allocation_id.is_none() {
        return Err(cdt_error(command, "additional_capital_not_reconciled",
            "Additional principal requires a confirmed allocation.", "additional_allocation_id"));
    }
    match &facts.allocation {
        None => Err(cdt_error(command, "additional_allocation_not_found",
            "Active additional-capital allocation was not found.", "additional_allocation_id")),
        Some(a) => {
            let account_ok = match &a.account_id {
                Some(acc) => str_eq(acc.as_str(), facts.position_account_id.as_str()),
                None => false,
            };
            if a.amount_minor != external_capital || !str_eq(a.currency.as_str(), currency)
                || !str_eq(a.instrument_id.as_str(), facts.position_instrument_id.as_str()) || !account_ok {
                return Err(cdt_error(command, "additional_capital_mismatch",
                    "Additional allocation must exactly match the CDT instrument, account, currency, and capital.",
                    "additional_allocation_id"));
            }
            if facts.allocation_used {
                return Err(cdt_error(command, "allocation_already_consumed",
                    "Funding allocation is already consumed by a CDT lifecycle.", "additional_allocation_id"));
            }
            Ok(copy_opt(allocation_id))
        },
    }
}

/// The allocation consumed by a constitution, as storage has it.
pub struct ConstitutionAllocation {
    pub contribution_id: String,
    pub instrument_id: String,
    pub allocated_minor: i64,
    pub allocation_currency: String,
    pub account_id: Option<String>,
    pub instrument_type: String,
    pub denomination_currency: String,
}

/// What storage says about the allocation a constitution consumes.
pub struct ConstitutionFacts {
    /// The active allocation, with its contribution and instrument, if it exists.
    pub allocation: Option<ConstitutionAllocation>,
    /// A CDT position already consumes the allocation.
    pub already_consumed: bool,
}

/// A constitution ready to be stored: its first operation, and the
/// instrument and account of the new position.
pub struct CdtConstitution {
    pub operation: CdtOperation,
    pub instrument_id: String,
    pub account_id: String,
}

/// The currency code as given, trimmed and upper-cased.
pub open spec fn normalized_currency(s: Seq<char>) -> Seq<char> {
    ascii_upper(trim_seq(s))
}

/// Why a constitution is refused, checked in this order.
pub open spec fn spec_constitution_failure(input: CdtConstitutionInput, facts: ConstitutionFacts) -> Option<(Seq<char>, Seq<char>, Seq<char>)> {
    let currency = normalized_currency(input.currency@);
    if input.principal_minor <= 0 {
        Some(("invalid_principal"@, "Principal must be positive."@, "principal_minor"@))
    } else if !spec_valid_currency(currency) {
        Some(("invalid_currency"@, "Currency must be a three-letter uppercase code."@, "currency"@))
    } else if spec_terms_failure(input.constitution_date@, input.terms) is Some {
        spec_terms_failure(input.constitution_date@, input.terms)
    } else if facts.allocation is None {
        Some(("allocation_not_found"@, "Active investment allocation was not found."@, "allocation_id"@))
    } else {
        let a = facts.allocation->0;
        if a.account_id is None {
            Some(("allocation_account_required"@, "CDT funding allocation must belong to an account."@, "allocation_id"@))
        } else if a.instrument_type@ != "fixed_income"@ {
            Some(("instrument_not_fixed_income"@, "CDTs require a fixed_income instrument."@, "allocation_id"@))
        } else if currency != a.allocation_currency@ || currency != a.denomination_currency@ {
            Some(("currency_mismatch"@, "Principal, allocation, and instrument currencies must match."@, "currency"@))
        } else if input.principal_minor != a.allocated_minor {
            Some(("principal_allocation_mismatch"@, "Principal must exactly match the consumed allocation."@,
                "principal_minor"@))
        } else if facts.already_consumed {
            Some(("allocation_already_consumed"@, "Allocation already constitutes a CDT position."@, "allocation_id"@))
        } else {
            None
        }
    }
}

/// Fields every newly recorded operation shares.
pub open spec fn fresh_record(op: CdtOperation, revision_id: Seq<char>, operation_id: Seq<char>) -> bool {
    &&& op.id@ == revision_id
    &&& op.operation_id@ == operation_id
    &&& op.revision == 1
    &&& op.provenance_source@ == "manual_entry"@
    &&& op.correction_reason is None
    &&& op.replaces_revision_id is None
    &&& op.created_at@.len() == 0
}

/// The first operation of a lifecycle: the principal comes entirely from the
/// consumed allocation.
pub open spec fn constitution_record(op: CdtOperation, input: CdtConstitutionInput, a: ConstitutionAllocation) -> bool {
    &&& op.operation_type@ == "constitution"@
    &&& op.effective_date@ == input.constitution_date@
    &&& op.currency@ == normalized_currency(input.currency@)
    &&& op.principal_before_minor == 0
    &&& op.principal_after_minor == input.principal_minor
    &&& op.principal_returned_minor == 0
    &&& op.external_capital_minor == input.principal_minor
    &&& op.capitalized_interest_minor == 0
    &&& op.gross_interest_minor == 0
    &&& op.withholding_minor == 0
    &&& op.other_deductions_minor == 0
    &&& op.net_cash_received_minor == 0
    &&& opt_seq(op.funding_allocation_id) == Some(input.allocation_id@)
    &&& opt_seq(op.funding_contribution_id) == Some(a.contribution_id@)
    &&& terms_recorded(op.terms, input.terms)
    &&& op.deduction_component_id is None
    &&& op.deduction_expense_transaction_id is None
}

/// Constitutes a CDT from one allocation of a fixed-income instrument.
pub fn constitute_cdt(
    input: CdtConstitutionInput,
    facts: ConstitutionFacts,
    operation_id: String,
    revision_id: String,
) -> (r: Result<CdtConstitution, CdtResponse>)
    ensures
        spec_constitution_failure(input, facts) matches Some(f) ==> (r matches Err(e) && is_cdt_error(
            e, "cdts constitute"@, f)),
        spec_constitution_failure(input, facts) is None ==> (r matches Ok(c) && {
            let a = facts.allocation->0;
            &&& fresh_record(c.operation, revision_id@, operation_id@)
            &&& constitution_record(c.operation, input, a)
            &&& c.instrument_id@ == a.instrument_id@
            &&& opt_seq(a.account_id) == Some(c.account_id@)
        }),
{
    let command = "cdts constitute";
    let ghost input0 = input;
    let currency = to_ascii_uppercase(trimmed(input.currency.as_str()).as_str());
    if input.principal_minor <= 0 {
        return Err(cdt_error(command, "invalid_principal", "Principal must be positive.", "principal_minor"));
    }
    if !valid_currency(currency.as_str()) {
        return Err(cdt_error(command, "invalid_currency", "Currency must be a three-letter uppercase code.", "currency"));
    }
    let terms = match validate_terms(command, input.constitution_date.as_str(), input.terms) {
        Ok(t) => t,
        Err(e) => return Err(e),
    };
    let a = match facts.allocation {
        Some(a) => a,
        None => return Err(cdt_error(command, "allocation_not_found",
            "Active investment allocation was not found.", "allocation_id")),
    };
    let account_id = match a.account_id {
        Some(acc) => acc,
        None => return Err(cdt_error(command, "allocation_account_required",
            "CDT funding allocation must belong to an account.", "allocation_id")),
    };
    if !str_eq(a.instrument_type.as_str(), "fixed_income") {
        return Err(cdt_error(command, "instrument_not_fixed_income", "CDTs require a fixed_income instrument.",
            "allocation_id"));
    }
    if !str_eq(currency.as_str(), a.allocation_currency.as_str())
        || !str_eq(currency.as_str(), a.denomination_currency.as_str()) {
        return Err(cdt_error(command, "currency_mismatch",
            "Principal, allocation, and instrument currencies must match.", "currency"));
    }
    if input.principal_minor != a.allocated_minor {
        return Err(cdt_error(command, "principal_allocation_mismatch",
            "Principal must exactly match the consumed allocation.", "principal_minor"));
    }
    if facts.already_consumed {
        return Err(cdt_error(command, "allocation_already_consumed",
            "Allocation already constitutes a CDT position.", "allocation_id"));
    }
    let operation = CdtOperation {
        id: revision_id,
        operation_id,
        revision: 1,
        operation_type: owned("constitution"),
        effective_date: input.constitution_date,
        currency,
        principal_before_minor: 0,
        principal_after_minor: input.principal_minor,
        principal_returned_minor: 0,
        external_capital_minor: input.principal_minor,
        capitalized_interest_minor: 0,
        gross_interest_minor: 0,
        withholding_minor: 0,
        other_deductions_minor: 0,
        net_cash_received_minor: 0,
        funding_allocation_id: Some(input.allocation_id),
        funding_contribution_id: Some(a.contribution_id),
        terms,
        deduction_component_id: None,
        deduction_expense_transaction_id: None,
        provenance_source: owned("manual_entry"),
        correction_reason: None,
        replaces_revision_id: None,
        created_at: String::new(),
    };
    Ok(CdtConstitution { operation, instrument_id: a.instrument_id, account_id })
}

/// Why a renewal of the position whose latest operation is `current` is
/// refused, checked in this order.
pub open spec fn spec_renewal_failure(
    input: CdtRenewalInput,
    current: Option<CdtOperation>,
    funding: FundingFacts,
    deduction: DeductionFacts,
) -> Option<(Seq<char>, Seq<char>, Seq<char>)> {
    if current is None {
        Some(("cdt_position_not_found"@, "CDT position was not found."@, "position_id"@))
    } else {
        let c = current->0;
        let e1 = c.principal_after_minor + input.external_capital_minor;
        let e2 = e1 + input.capitalized_interest_minor;
        if c.principal_after_minor == 0 {
            Some(("cdt_already_redeemed"@, "A redeemed CDT cannot be renewed."@, "position_id"@))
        } else if !spec_valid_date(input.effective_date@) || seq_lt(input.effective_date@, c.terms.maturity_date@) {
            Some(("renewal_before_maturity"@, "Renewal date must be on or after current maturity."@, "effective_date"@))
        } else if spec_terms_failure(input.effective_date@, input.terms) is Some {
            spec_terms_failure(input.effective_date@, input.terms)
        } else if input.external_capital_minor < 0 || input.capitalized_interest_minor < 0
            || input.gross_interest_minor < 0 || input.withholding_minor < 0 || input.other_deductions_minor < 0
            || input.net_cash_received_minor < 0 {
            Some(("negative_component"@, "Renewal monetary components cannot be negative."@, "renewal"@))
        } else if spec_funding(input.additional_allocation_id, input.external_capital_minor as int, c.currency@,
            funding) is Err {
            Some(spec_funding(input.additional_allocation_id, input.external_capital_minor as int, c.currency@,
                funding)->Err_0)
        } else if spec_interest_failure(input.gross_interest_minor as int, input.capitalized_interest_minor as int,
            input.withholding_minor as int, input.other_deductions_minor as int,
            input.net_cash_received_minor as int) is Some {
            spec_interest_failure(input.gross_interest_minor as int, input.capitalized_interest_minor as int,
                input.withholding_minor as int, input.other_deductions_minor as int,
                input.net_cash_received_minor as int)
        } else if spec_deduction_failure(input.other_deductions_minor as int, c.currency@,
            input.deduction_component_id, input.deduction_expense_transaction_id, deduction) is Some {
            spec_deduction_failure(input.other_deductions_minor as int, c.currency@, input.deduction_component_id,
                input.deduction_expense_transaction_id, deduction)
        } else if !(in_i64(e1) && in_i64(e2)) {
            Some(("principal_overflow"@, "Renewed principal exceeds exact integer limits."@, "principal_minor"@))
        } else {
            None
        }
    }
}

/// A renewal continues from the current principal, adds external capital and
/// capitalized interest, and records the interest cash as given.
pub open spec fn renewal_record(op: CdtOperation, input: CdtRenewalInput, c: CdtOperation, funding: FundingFacts) -> bool {
    &&& op.operation_type@ == "renewal"@
    &&& op.effective_date@ == input.effective_date@
    &&& op.currency@ == c.currency@
    &&& op.principal_before_minor == c.principal_after_minor
    &&& op.principal_after_minor == c.principal_after_minor + input.external_capital_minor
        + input.capitalized_interest_minor
    &&& op.principal_returned_minor == 0
    &&& op.external_capital_minor == input.external_capital_minor
    &&& op.capitalized_interest_minor == input.capitalized_interest_minor
    &&& op.gross_interest_minor == input.gross_interest_minor
    &&& op.withholding_minor == input.withholding_minor
    &&& op.other_deductions_minor == input.other_deductions_minor
    &&& op.net_cash_received_minor == input.net_cash_received_minor
    &&& spec_funding(input.additional_allocation_id, input.external_capital_minor as int, c.currency@, funding)
        == Ok::<Option<Seq<char>>, (Seq<char>, Seq<char>, Seq<char>)>(opt_seq(op.funding_allocation_id))
    &&& op.funding_contribution_id is None
    &&& terms_recorded(op.terms, input.terms)
    &&& op.deduction_component_id == input.deduction_component_id
    &&& op.deduction_expense_transaction_id == input.deduction_expense_transaction_id
}

/// Renews the CDT whose latest operation is `current`.
pub fn renew_cdt(
    input: CdtRenewalInput,
    current: Option<CdtOperation>,
    funding: FundingFacts,
    deduction: DeductionFacts,
    operation_id: String,
    revision_id: String,
) -> (r: Result<CdtOperation, CdtResponse>)
    ensures
        spec_renewal_failure(input, current, funding, deduction) matches Some(f) ==> (r matches Err(e)
            && is_cdt_error(e, "cdts renew"@, f)),
        spec_renewal_failure(input, current, funding, deduction) is None ==> (r matches Ok(op)
            && fresh_record(op, revision_id@, operation_id@) && renewal_record(op, input, current->0, funding)),
{
    let command = "cdts renew";
    let ghost input0 = input;
    let c = match current {
        Some(c) => c,
        None => return Err(cdt_error(command, "cdt_position_not_found", "CDT position was not found.", "position_id")),
    };
    if c.principal_after_minor == 0 {
        return Err(cdt_error(command, "cdt_already_redeemed", "A redeemed CDT cannot be renewed.", "position_id"));
    }
    if !valid_date(input.effective_date.as_str())
        || str_lt(input.effective_date.as_str(), c.terms.maturity_date.as_str()) {
        return Err(cdt_error(command, "renewal_before_maturity", "Renewal date must be on or after current maturity.",
            "effective_date"));
    }
    let terms = match validate_terms(command, input.effective_date.as_str(), input.terms) {
        Ok(t) => t,
        Err(e) => return Err(e),
    };
    if input.external_capital_minor < 0 || input.capitalized_interest_minor < 0 || input.gross_interest_minor < 0
        || input.withholding_minor < 0 || input.other_deductions_minor < 0 || input.net_cash_received_minor < 0 {
        return Err(cdt_error(command, "negative_component", "Renewal monetary components cannot be negative.",
            "renewal"));
    }
    let funded = match validate_additional_funding(command, &input.additional_allocation_id,
        input.external_capital_minor, c.currency.as_str(), &funding) {
        Ok(f) => f,
        Err(e) => return Err(e),
    };
    match validate_interest_reconciliation(command, input.gross_interest_minor, input.capitalized_interest_minor,
        input.withholding_minor, input.other_deductions_minor, input.net_cash_received_minor) {
        Some(e) => return Err(e),
        None => {},
    }
    match validate_deduction(command, input.other_deductions_minor, c.currency.as_str(),
        &input.deduction_component_id, &input.deduction_expense_transaction_id, &deduction) {
        Some(e) => return Err(e),
        None => {},
    }
    let principal_after = match c.principal_after_minor.checked_add(input.external_capital_minor) {
        Some(e1) => match e1.checked_add(input.capitalized_interest_minor) {
            Some(e2) => e2,
            None => return Err(cdt_error(command, "principal_overflow",
                "Renewed principal exceeds exact integer limits.", "principal_minor")),
        },
        None => return Err(cdt_error(command, "principal_overflow", "Renewed principal exceeds exact integer limits.",
            "principal_minor")),
    };
    Ok(CdtOperation {
        id: revision_id,
        operation_id,
        revision: 1,
        operation_type: owned("renewal"),
        effective_date: input.effective_date,
        currency: c.currency,
        principal_before_minor: c.principal_after_minor,
        principal_after_minor: principal_after,
        principal_returned_minor: 0,
        external_capital_minor: input.external_capital_minor,
        capitalized_interest_minor: input.capitalized_interest_minor,
        gross_interest_minor: input.gross_interest_minor,
        withholding_minor: input.withholding_minor,
        other_deductions_minor: input.other_deductions_minor,
        net_cash_received_minor: input.net_cash_received_minor,
        funding_allocation_id: funded,
        funding_contribution_id: None,
        terms,
        deduction_component_id: input.deduction_component_id,
        deduction_expense_transaction_id: input.deduction_expense_transaction_id,
        provenance_source: owned("manual_entry"),
        correction_reason: None,
        replaces_revision_id: None,
        created_at: String::new(),
    })
}

/// Why a redemption of the position whose latest operation is `current` is
/// refused, checked in this order.
pub open spec fn spec_redemption_failure(
    input: CdtRedemptionInput,
    current: Option<CdtOperation>,
    deduction: DeductionFacts,
    duplicate: bool,
) -> Option<(Seq<char>, Seq<char>, Seq<char>)> {
    if current is None {
        Some(("cdt_position_not_found"@, "CDT position was not found."@, "position_id"@))
    } else {
        let c = current->0;
        let rec = spec_reconcile_redemption(c.principal_after_minor as int, input.principal_returned_minor as int,
            input.gross_interest_minor as int, input.withholding_minor as int, input.other_deductions_minor as int,
            input.net_cash_received_minor as int);
        if c.principal_after_minor == 0 {
            Some(("duplicate_redemption"@, "The CDT is already fully redeemed."@, "position_id"@))
        } else if !spec_valid_date(input.effective_date@) || seq_lt(input.effective_date@, c.terms.maturity_date@) {
            Some(("redemption_before_maturity"@, "Redemption date must be on or after current maturity."@,
                "effective_date"@))
        } else if input.gross_interest_minor < 0 || input.withholding_minor < 0 || input.other_deductions_minor < 0
            || input.net_cash_received_minor < 0 {
            Some(("negative_component"@, "Redemption monetary components cannot be negative."@, "redemption"@))
        } else if rec == Err::<int, RedemptionReconciliationError>(RedemptionReconciliationError::InvalidPrincipal) {
            Some(("invalid_principal_returned"@,
                "Returned principal must be positive and cannot exceed current principal."@,
                "principal_returned_minor"@))
        } else if rec == Err::<int, RedemptionReconciliationError>(RedemptionReconciliationError::NetCashMismatch) {
            Some(("net_cash_mismatch"@,
                "Net cash must equal returned principal plus gross interest minus withholding and other deductions."@,
                "net_cash_received_minor"@))
        } else if rec->Ok_0 > 0 && !c.terms.allows_partial_redemption {
            Some(("partial_redemption_not_allowed"@, "Current contract terms do not allow partial redemption."@,
                "principal_returned_minor"@))
        } else if spec_deduction_failure(input.other_deductions_minor as int, c.currency@,
            input.deduction_component_id, input.deduction_expense_transaction_id, deduction) is Some {
            spec_deduction_failure(input.other_deductions_minor as int, c.currency@, input.deduction_component_id,
                input.deduction_expense_transaction_id, deduction)
        } else if duplicate {
            Some(("duplicate_redemption"@, "An identical redemption is already recorded."@, "redemption"@))
        } else {
            None
        }
    }
}

/// A redemption takes the returned principal off the current principal and
/// keeps the current terms.
pub open spec fn redemption_record(op: CdtOperation, input: CdtRedemptionInput, c: CdtOperation) -> bool {
    &&& op.operation_type@ == "redemption"@
    &&& op.effective_date@ == input.effective_date@
    &&& op.currency@ == c.currency@
    &&& op.principal_before_minor == c.principal_after_minor
    &&& op.principal_after_minor == c.principal_after_minor - input.principal_returned_minor
    &&& op.principal_returned_minor == input.principal_returned_minor
    &&& op.external_capital_minor == 0
    &&& op.capitalized_interest_minor == 0
    &&& op.gross_interest_minor == input.gross_interest_minor
    &&& op.withholding_minor == input.withholding_minor
    &&& op.other_deductions_minor == input.other_deductions_minor
    &&& op.net_cash_received_minor == input.net_cash_received_minor
    &&& op.funding_allocation_id is None
    &&& op.funding_contribution_id is None
    &&& op.terms == c.terms
    &&& op.deduction_component_id == input.deduction_component_id
    &&& op.deduction_expense_transaction_id == input.deduction_expense_transaction_id
}

/// Redeems the CDT whose latest operation is `current`; `duplicate` says an
/// identical redemption is already recorded.
pub fn redeem_cdt(
    input: CdtRedemptionInput,
    current: Option<CdtOperation>,
    deduction: DeductionFacts,
    duplicate: bool,
    operation_id: String,
    revision_id: String,
) -> (r: Result<CdtOperation, CdtResponse>)
    ensures
        spec_redemption_failure(input, current, deduction, duplicate) matches Some(f) ==> (r matches Err(e)
            && is_cdt_error(e, "cdts redeem"@, f)),
        spec_redemption_failure(input, current, deduction, duplicate) is None ==> (r matches Ok(op)
            && fresh_record(op, revision_id@, operation_id@) && redemption_record(op, input, current->0)),
{
    let command = "cdts redeem";
    let c = match current {
        Some(c) => c,
        None => return Err(cdt_error(command, "cdt_position_not_found", "CDT position was not found.", "position_id")),
    };
    if c.principal_after_minor == 0 {
        return Err(cdt_error(command, "duplicate_redemption", "The CDT is already fully redeemed.", "position_id"));
    }
    if !valid_date(input.effective_date.as_str())
        || str_lt(input.effective_date.as_str(), c.terms.maturity_date.as_str()) {
        return Err(cdt_error(command, "redemption_before_maturity",
            "Redemption date must be on or after current maturity.", "effective_date"));
    }
    if input.gross_interest_minor < 0 || input.withholding_minor < 0 || input.other_deductions_minor < 0
        || input.net_cash_received_minor < 0 {
        return Err(cdt_error(command, "negative_component", "Redemption monetary components cannot be negative.",
            "redemption"));
    }
    let principal_after = match reconcile_redemption(c.principal_after_minor, input.principal_returned_minor,
        input.gross_interest_minor, input.withholding_minor, input.other_deductions_minor,
        input.net_cash_received_minor) {
        Ok(p) => p,
        Err(RedemptionReconciliationError::InvalidPrincipal) => return Err(cdt_error(command,
            "invalid_principal_returned", "Returned principal must be positive and cannot exceed current principal.",
            "principal_returned_minor")),
        Err(RedemptionReconciliationError::NetCashMismatch) => return Err(cdt_error(command, "net_cash_mismatch",
            "Net cash must equal returned principal plus gross interest minus withholding and other deductions.",
            "net_cash_received_minor")),
    };
    if principal_after > 0 && !c.terms.allows_partial_redemption {
        return Err(cdt_error(command, "partial_redemption_not_allowed",
            "Current contract terms do not allow partial redemption.", "principal_returned_minor"));
    }
    match validate_deduction(command, input.other_deductions_minor, c.currency.as_str(),
        &input.deduction_component_id, &input.deduction_expense_transaction_id, &deduction) {
        Some(e) => return Err(e),
        None => {},
    }
    if duplicate {
        return Err(cdt_error(command, "duplicate_redemption", "An identical redemption is already recorded.",
            "redemption"));
    }
    Ok(CdtOperation {
        id: revision_id,
        operation_id,
        revision: 1,
        operation_type: owned("redemption"),
        effective_date: input.effective_date,
        currency: c.currency,
        principal_before_minor: c.principal_after_minor,
        principal_after_minor: principal_after,
        principal_returned_minor: input.principal_returned_minor,
        external_capital_minor: 0,
        capitalized_interest_minor: 0,
        gross_interest_minor: input.gross_interest_minor,
        withholding_minor: input.withholding_minor,
        other_deductions_minor: input.other_deductions_minor,
        net_cash_received_minor: input.net_cash_received_minor,
        funding_allocation_id: None,
        funding_contribution_id: None,
        terms: c.terms,
        deduction_component_id: input.deduction_component_id,
        deduction_expense_transaction_id: input.deduction_expense_transaction_id,
        provenance_source: owned("manual_entry"),
        correction_reason: None,
        replaces_revision_id: None,
        created_at: String::new(),
    })
}

/// Operations effective on or before `as_of`.
pub open spec fn on_or_before(as_of: Seq<char>) -> spec_fn(CdtOperation) -> bool {
    |o: CdtOperation| !seq_lt(as_of, o.effective_date@)
}

/// The operations of `ops` effective on or before `as_of`, in order.
pub fn effective_operations(ops: &Vec<CdtOperation>, as_of: &str) -> (r: Vec<CdtOperation>)
    ensures
        r@ == ops@.filter(on_or_before(as_of@)),
{
    let ghost pred = on_or_before(as_of@);
    let mut out: Vec<CdtOperation> = Vec::new();
    let mut i: usize = 0;
    while i < ops.len()
        invariant
            i <= ops.len(),
            pred == on_or_before(as_of@),
            out@ == ops@.take(i as int).filter(pred),
        decreases ops.len() - i,
    {
        reveal_with_fuel(Seq::<_>::filter, 1);
        assert(ops@.take(i + 1).drop_last() =~= ops@.take(i as int));
        let o = &ops[i];
        if !str_lt(as_of, o.effective_date.as_str()) {
            out.push(copy_cdt_operation(o));
        }
        i = i + 1;
    }
    assert(ops@.take(ops@.len() as int) =~= ops@);
    out
}

/// Status of a position whose latest effective operation is `latest`.
pub open spec fn spec_status(latest: CdtOperation, as_of: Seq<char>) -> Seq<char> {
    if latest.operation_type@ == "redemption"@ && latest.principal_after_minor == 0 {
        "redeemed"@
    } else if !seq_lt(as_of, latest.terms.maturity_date@) {
        "matured"@
    } else if latest.operation_type@ == "redemption"@ {
        "active"@
    } else if latest.operation_type@ == "renewal"@ {
        "renewed"@
    } else {
        "active"@
    }
}

/// A position's status follows its latest effective operation and the
/// as-of date: a redemption that leaves no principal makes it redeemed;
/// otherwise it is matured from its maturity date on, and before that
/// renewed after a renewal and active after anything else.
pub proof fn law_position_status(latest: CdtOperation, as_of: Seq<char>)
    ensures
        (latest.operation_type@ == "redemption"@ && latest.principal_after_minor == 0) ==> spec_status(latest, as_of)
            == "redeemed"@,
        !(latest.operation_type@ == "redemption"@ && latest.principal_after_minor == 0)
            && !seq_lt(as_of, latest.terms.maturity_date@) ==> spec_status(latest, as_of) == "matured"@,
        !(latest.operation_type@ == "redemption"@ && latest.principal_after_minor == 0)
            && seq_lt(as_of, latest.terms.maturity_date@) && latest.operation_type@ == "renewal"@
            ==> spec_status(latest, as_of) == "renewed"@,
        !(latest.operation_type@ == "redemption"@ && latest.principal_after_minor == 0)
            && seq_lt(as_of, latest.terms.maturity_date@) && latest.operation_type@ != "renewal"@
            ==> spec_status(latest, as_of) == "active"@,
{
    reveal_strlit("redemption");
    reveal_strlit("renewal");
    assert("renewal"@.len() != "redemption"@.len());
}

pub fn position_status(latest: &CdtOperation, as_of: &str) -> (r: String)
    ensures
        r@ == spec_status(*latest, as_of@),
{
    if str_eq(latest.operation_type.as_str(), "redemption") && latest.principal_after_minor == 0 {
        owned("redeemed")
    } else if !str_lt(as_of, latest.terms.maturity_date.as_str()) {
        owned("matured")
    } else if str_eq(latest.operation_type.as_str(), "redemption") {
        owned("active")
    } else if str_eq(latest.operation_type.as_str(), "renewal") {
        owned("renewed")
    } else {
        owned("active")
    }
}

/// What storage says about a CDT position beyond its operations.
pub struct PositionFacts {
    pub instrument_id: String,
    pub provider: String,
    pub account_id: String,
    pub allocation_id: String,
    pub contribution_id: String,
}

/// The position as of a date, from its first and latest effective operations.
pub open spec fn position_matches(p: CdtPosition, id: Seq<char>, facts: PositionFacts, first: CdtOperation, latest: CdtOperation, as_of: Seq<char>) -> bool {
    &&& p.id@ == id
    &&& p.instrument_id == facts.instrument_id
    &&& p.institution_or_issuer == facts.provider
    &&& p.account_id == facts.account_id
    &&& p.constitution_allocation_id == facts.allocation_id
    &&& p.constitution_contribution_id == facts.contribution_id
    &&& p.constitution_date == first.effective_date
    &&& p.current_principal_minor == latest.principal_after_minor
    &&& p.currency == latest.currency
    &&& p.status@ == spec_status(latest, as_of)
    &&& p.current_terms == latest.terms
    &&& p.constituent_operation_id == first.operation_id
    &&& p.latest_operation_id == latest.operation_id
}

/// The position `position_id` as of `as_of`, from its active operations in
/// date order.
pub fn load_position(position_id: &str, facts: &PositionFacts, ops: &Vec<CdtOperation>, as_of: &str) -> (r: CdtPosition)
    requires
        ops@.filter(on_or_before(as_of@)).len() > 0,
    ensures
        ({
            let eff = ops@.filter(on_or_before(as_of@));
            position_matches(r, position_id@, *facts, eff[0], eff.last(), as_of@)
        }),
{
    let eff = effective_operations(ops, as_of);
    let first = &eff[0];
    let latest = &eff[eff.len() - 1];
    CdtPosition {
        id: owned(position_id),
        instrument_id: facts.instrument_id.clone(),
        institution_or_issuer: facts.provider.clone(),
        account_id: facts.account_id.clone(),
        constitution_allocation_id: facts.allocation_id.clone(),
        constitution_contribution_id: facts.contribution_id.clone(),
        constitution_date: first.effective_date.clone(),
        current_principal_minor: latest.principal_after_minor,
        currency: latest.currency.clone(),
        status: position_status(latest, as_of),
        current_terms: copy_terms(&latest.terms),
        constituent_operation_id: first.operation_id.clone(),
        latest_operation_id: latest.operation_id.clone(),
    }
}

/// A constitution among `ops` is effective on or before `as_of`.
pub open spec fn constituted_by(ops: Seq<CdtOperation>, as_of: Seq<char>) -> bool {
    exists|i: int| 0 <= i < ops.len() && (#[trigger] ops[i]).operation_type@ == "constitution"@
        && !seq_lt(as_of, ops[i].effective_date@)
}

/// Why inspecting a position as of a date is refused.
pub open spec fn spec_inspect_failure(as_of: Seq<char>, found: bool, ops: Seq<CdtOperation>) -> Option<(Seq<char>, Seq<char>, Seq<char>)> {
    if !spec_valid_date(as_of) {
        Some(("invalid_as_of_date"@, "As-of date must use YYYY-MM-DD."@, "as_of"@))
    } else if !found {
        Some(("cdt_position_not_found"@, "CDT position was not found."@, "position_id"@))
    } else if !constituted_by(ops, as_of) {
        Some(("cdt_not_effective_as_of"@, "CDT position was not yet constituted on the as-of date."@, "as_of"@))
    } else {
        None
    }
}

/// The position `position_id` as of `as_of` with its effective active
/// operations and its full revision history; `facts` is `None` when the
/// position does not exist, `ops` are its active operations in date order.
pub fn inspect_cdt(
    command: &str,
    position_id: &str,
    as_of: &str,
    facts: Option<PositionFacts>,
    ops: Vec<CdtOperation>,
    history: Vec<CdtOperation>,
) -> (r: CdtResponse)
    ensures
        spec_inspect_failure(as_of@, facts is Some, ops@) matches Some(f) ==> is_cdt_error(r, command@, f),
        spec_inspect_failure(as_of@, facts is Some, ops@) is None ==> {
            let eff = ops@.filter(on_or_before(as_of@));
            &&& r.schema_version@ == cdt_schema()
            &&& r.command@ == command@
            &&& r.ok
            &&& r.position matches Some(p) && position_matches(p, position_id@, facts->0, eff[0], eff.last(), as_of@)
            &&& r.positions@.len() == 0
            &&& r.operations@ == eff
            &&& r.operation_history@ == history@
            &&& r.errors@.len() == 0
        },
{
    if !valid_date(as_of) {
        return cdt_error(command, "invalid_as_of_date", "As-of date must use YYYY-MM-DD.", "as_of");
    }
    let facts = match facts {
        Some(f) => f,
        None => return cdt_error(command, "cdt_position_not_found", "CDT position was not found.", "position_id"),
    };
    let mut constituted = false;
    let mut i: usize = 0;
    while i < ops.len()
        invariant
            i <= ops.len(),
            constituted ==> constituted_by(ops@, as_of@),
            !constituted ==> forall|j: int| 0 <= j < i ==> !((#[trigger] ops@[j]).operation_type@ == "constitution"@
                && !seq_lt(as_of@, ops@[j].effective_date@)),
        decreases ops.len() - i,
    {
        if str_eq(ops[i].operation_type.as_str(), "constitution") && !str_lt(as_of, ops[i].effective_date.as_str()) {
            constituted = true;
        }
        i = i + 1;
    }
    if !constituted {
        return cdt_error(command, "cdt_not_effective_as_of", "CDT position was not yet constituted on the as-of date.",
            "as_of");
    }
    proof {
        let j = choose|j: int| 0 <= j < ops@.len() && (#[trigger] ops@[j]).operation_type@ == "constitution"@
            && !seq_lt(as_of@, ops@[j].effective_date@);
        lemma_filter_keeps(ops@, on_or_before(as_of@), j);
    }
    let position = load_position(position_id, &facts, &ops, as_of);
    let operations = effective_operations(&ops, as_of);
    CdtResponse {
        schema_version: owned("tracky.cdts.v1"),
        command: owned(command),
        ok: true,
        position: Some(position),
        positions: Vec::new(),
        operations,
        operation_history: history,
        errors: Vec::new(),
    }
}

/// An element that satisfies the predicate survives filtering.
pub proof fn lemma_filter_keeps<A>(s: Seq<A>, pred: spec_fn(A) -> bool, j: int)
    requires
        0 <= j < s.len(),
        pred(s[j]),
    ensures
        s.filter(pred).len() > 0,
{
    s.lemma_filter_contains(pred, j);
}

/// The positions effective as of a date (already loaded in storage order).
pub fn list_cdts(as_of: &str, positions: Vec<CdtPosition>) -> (r: CdtResponse)
    ensures
        !spec_valid_date(as_of@) ==> is_cdt_error(r, "cdts list"@,
            ("invalid_as_of_date"@, "As-of date must use YYYY-MM-DD."@, "as_of"@)),
        spec_valid_date(as_of@) ==> {
            &&& r.schema_version@ == cdt_schema()
            &&& r.command@ == "cdts list"@
            &&& r.ok
            &&& r.position is None
            &&& r.positions@ == positions@
            &&& r.operations@.len() == 0
            &&& r.operation_history@.len() == 0
            &&& r.errors@.len() == 0
        },
{
    let command = "cdts list";
    if !valid_date(as_of) {
        return cdt_error(command, "invalid_as_of_date", "As-of date must use YYYY-MM-DD.", "as_of");
    }
    CdtResponse {
        schema_version: owned("tracky.cdts.v1"),
        command: owned(command),
        ok: true,
        position: None,
        positions,
        operations: Vec::new(),
        operation_history: Vec::new(),
        errors: Vec::new(),
    }
}

/// `x` placed into `s` after every operation not effective later than it
/// (one step of a stable insertion sort by effective date).
pub open spec fn insert_by_date(s: Seq<CdtOperation>, x: CdtOperation) -> Seq<CdtOperation>
    decreases s.len(),
{
    if s.len() == 0 {
        seq![x]
    } else if !seq_lt(x.effective_date@, s.last().effective_date@) {
        s.push(x)
    } else {
        insert_by_date(s.drop_last(), x).push(s.last())
    }
}

/// `s` in effective-date order, operations with equal dates kept in their
/// original order (what a stable sort by date gives).
pub open spec fn sort_by_date(s: Seq<CdtOperation>) -> Seq<CdtOperation>
    decreases s.len(),
{
    if s.len() == 0 {
        s
    } else {
        insert_by_date(sort_by_date(s.drop_last()), s.last())
    }
}

proof fn lemma_insert_by_date_at(s: Seq<CdtOperation>, x: CdtOperation, p: int)
    requires
        0 <= p <= s.len(),
        forall|k: int| p <= k < s.len() ==> seq_lt(x.effective_date@, (#[trigger] s[k]).effective_date@),
        p > 0 ==> !seq_lt(x.effective_date@, s[p - 1].effective_date@),
    ensures
        insert_by_date(s, x) == s.insert(p, x),
    decreases s.len(),
{
    if s.len() == 0 {
        assert(s.insert(p, x) =~= seq![x]);
    } else if p == s.len() {
        assert(s.insert(p, x) =~= s.push(x));
    } else {
        assert(seq_lt(x.effective_date@, s[s.len() - 1].effective_date@));
        let t = s.drop_last();
        assert forall|k: int| p <= k < t.len() implies seq_lt(x.effective_date@, (#[trigger] t[k]).effective_date@) by {
            assert(t[k] == s[k]);
        }
        lemma_insert_by_date_at(t, x, p);
        assert(t.insert(p, x).push(s.last()) =~= s.insert(p, x));
    }
}

/// The operations ordered by effective date, keeping the order of equal dates.
pub fn sorted_by_date(ops: Vec<CdtOperation>) -> (r: Vec<CdtOperation>)
    ensures
        r@ == sort_by_date(ops@),
{
    let mut out: Vec<CdtOperation> = Vec::new();
    let mut i: usize = 0;
    while i < ops.len()
        invariant
            i <= ops.len(),
            out@ == sort_by_date(ops@.take(i as int)),
        decreases ops.len() - i,
    {
        let x = copy_cdt_operation(&ops[i]);
        let mut p = out.len();
        while p > 0 && str_lt(x.effective_date.as_str(), out[p - 1].effective_date.as_str())
            invariant
                p <= out.len(),
                forall|k: int| p <= k < out.len() ==> seq_lt(x.effective_date@, (#[trigger] out@[k]).effective_date@),
            decreases p,
        {
            p = p - 1;
        }
        proof {
            lemma_insert_by_date_at(out@, x, p as int);
            assert(ops@.take(i + 1).drop_last() =~= ops@.take(i as int));
            assert(ops@.take(i + 1).last() == ops@[i as int]);
        }
        out.insert(p, x);
        i = i + 1;
    }
    assert(ops@.take(ops@.len() as int) =~= ops@);
    out
}

/// Index of the first operation with identity `id`, or `-1`.
pub open spec fn index_of_operation(ops: Seq<CdtOperation>, id: Seq<char>) -> int
    decreases ops.len(),
{
    if ops.len() == 0 {
        -1
    } else if index_of_operation(ops.drop_last(), id) >= 0 {
        index_of_operation(ops.drop_last(), id)
    } else if ops.last().operation_id@ == id {
        ops.len() - 1
    } else {
        -1
    }
}

proof fn lemma_index_of_operation(ops: Seq<CdtOperation>, id: Seq<char>)
    ensures
        -1 <= index_of_operation(ops, id) < ops.len(),
        index_of_operation(ops, id) >= 0 ==> ops[index_of_operation(ops, id)].operation_id@ == id,
        forall|k: int| 0 <= k < ops.len() && (index_of_operation(ops, id) < 0 || k < index_of_operation(ops, id))
            ==> (#[trigger] ops[k]).operation_id@ != id,
    decreases ops.len(),
{
    if ops.len() > 0 {
        lemma_index_of_operation(ops.drop_last(), id);
        assert forall|k: int| 0 <= k < ops.len() - 1 implies #[trigger] ops[k] == ops.drop_last()[k] by {}
    }
}

/// Why a correction of operation `input.operation_id` is refused before its
/// lifecycle is checked; `ops` are the active operations of its position,
/// `None` when the operation has no active revision.
pub open spec fn spec_replacement_failure(input: CdtOperationReplacementInput, ops: Option<Seq<CdtOperation>>) -> Option<(Seq<char>, Seq<char>, Seq<char>)> {
    let rep = input.replacement;
    if trim_seq(input.reason@).len() == 0 {
        Some(("correction_reason_required"@, "A correction reason is required."@, "reason"@))
    } else if ops is None || index_of_operation(ops->0, input.operation_id@) < 0 {
        Some(("cdt_operation_not_found"@, "Active CDT operation was not found."@, "operation_id"@))
    } else if spec_terms_failure(rep.effective_date@, rep.terms) is Some {
        spec_terms_failure(rep.effective_date@, rep.terms)
    } else {
        let current = (ops->0)[index_of_operation(ops->0, input.operation_id@)];
        if opt_seq(rep.funding_allocation_id) != opt_seq(current.funding_allocation_id)
            || rep.external_capital_minor != current.external_capital_minor
            || opt_seq(rep.deduction_component_id) != opt_seq(current.deduction_component_id)
            || opt_seq(rep.deduction_expense_transaction_id) != opt_seq(current.deduction_expense_transaction_id)
            || rep.other_deductions_minor != current.other_deductions_minor {
            Some(("immutable_component_identity"@,
                "Funding and durable deduction identities, including deduction amount, are immutable across revisions."@,
                "replacement"@))
        } else {
            None
        }
    }
}

/// The next revision of `current` with the corrected economics.
pub open spec fn candidate_record(c: CdtOperation, input: CdtOperationReplacementInput, current: CdtOperation) -> bool {
    let rep = input.replacement;
    &&& c.id@.len() == 0
    &&& c.operation_id == current.operation_id
    &&& c.revision == current.revision + 1
    &&& c.operation_type == current.operation_type
    &&& c.effective_date == rep.effective_date
    &&& c.currency == current.currency
    &&& c.principal_before_minor == rep.principal_before_minor
    &&& c.principal_after_minor == rep.principal_after_minor
    &&& c.principal_returned_minor == rep.principal_returned_minor
    &&& c.external_capital_minor == rep.external_capital_minor
    &&& c.capitalized_interest_minor == rep.capitalized_interest_minor
    &&& c.gross_interest_minor == rep.gross_interest_minor
    &&& c.withholding_minor == rep.withholding_minor
    &&& c.other_deductions_minor == rep.other_deductions_minor
    &&& c.net_cash_received_minor == rep.net_cash_received_minor
    &&& c.funding_allocation_id == rep.funding_allocation_id
    &&& c.funding_contribution_id == current.funding_contribution_id
    &&& terms_recorded(c.terms, rep.terms)
    &&& c.deduction_component_id == rep.deduction_component_id
    &&& c.deduction_expense_transaction_id == rep.deduction_expense_transaction_id
    &&& c.provenance_source@ == "manual_entry"@
    &&& opt_seq(c.correction_reason) == Some(trim_seq(input.reason@))
    &&& opt_seq(c.replaces_revision_id) == Some(current.id@)
    &&& c.created_at@.len() == 0
}

/// Corrects one operation of a CDT lifecycle: the candidate revision takes
/// its place, the lifecycle is put in date order and must still validate.
/// On success gives the candidate and the date of the last operation, as of
/// which the position is then shown.
pub fn replace_cdt_operation(input: CdtOperationReplacementInput, ops: Option<Vec<CdtOperation>>) -> (r: Result<(CdtOperation, String), CdtResponse>)
    requires
        ops matches Some(v) ==> forall|k: int| 0 <= k < v@.len() ==> (#[trigger] v@[k]).revision < i64::MAX,
    ensures
        spec_replacement_failure(input, opt_ops(ops)) matches Some(f) ==> (r matches Err(e) && is_cdt_error(
            e, "cdts replace-operation"@, f)),
        spec_replacement_failure(input, opt_ops(ops)) is None ==> {
            let v = ops->0@;
            let idx = index_of_operation(v, input.operation_id@);
            &&& r matches Ok((c, as_of)) ==> {
                let sorted = sort_by_date(v.update(idx, c));
                &&& candidate_record(c, input, v[idx])
                &&& first_fault(sorted, sorted.len()) is None
                &&& as_of@ == sorted.last().effective_date@
            }
            &&& r matches Err(e) ==> exists|c: CdtOperation| {
                let sorted = sort_by_date(v.update(idx, c));
                &&& #[trigger] candidate_record(c, input, v[idx])
                &&& first_fault(sorted, sorted.len()) matches Some(f)
                &&& is_cdt_error(e, "cdts replace-operation"@, (f.0, f.1, "replacement"@))
            }
        },
{
    let command = "cdts replace-operation";
    let reason = trimmed(input.reason.as_str());
    if reason.unicode_len() == 0 {
        return Err(cdt_error(command, "correction_reason_required", "A correction reason is required.", "reason"));
    }
    let mut operations = match ops {
        Some(v) => v,
        None => return Err(cdt_error(command, "cdt_operation_not_found", "Active CDT operation was not found.",
            "operation_id")),
    };
    proof {
        lemma_index_of_operation(operations@, input.operation_id@);
    }
    let mut idx: usize = 0;
    while idx < operations.len() && !str_eq(operations[idx].operation_id.as_str(), input.operation_id.as_str())
        invariant
            idx <= operations.len(),
            forall|k: int| 0 <= k < idx ==> (#[trigger] operations@[k]).operation_id@ != input.operation_id@,
        decreases operations.len() - idx,
    {
        idx = idx + 1;
    }
    if idx == operations.len() {
        return Err(cdt_error(command, "cdt_operation_not_found", "Active CDT operation was not found.",
            "operation_id"));
    }
    assert(idx as int == index_of_operation(operations@, input.operation_id@));
    let rep = input.replacement;
    let current = copy_cdt_operation(&operations[idx]);
    let terms = match validate_terms(command, rep.effective_date.as_str(), rep.terms) {
        Ok(t) => t,
        Err(e) => return Err(e),
    };
    if !opt_eq(&rep.funding_allocation_id, &current.funding_allocation_id)
        || rep.external_capital_minor != current.external_capital_minor
        || !opt_eq(&rep.deduction_component_id, &current.deduction_component_id)
        || !opt_eq(&rep.deduction_expense_transaction_id, &current.deduction_expense_transaction_id)
        || rep.other_deductions_minor != current.other_deductions_minor {
        return Err(cdt_error(command, "immutable_component_identity",
            "Funding and durable deduction identities, including deduction amount, are immutable across revisions.",
            "replacement"));
    }
    let candidate = CdtOperation {
        id: String::new(),
        operation_id: current.operation_id.clone(),
        revision: current.revision + 1,
        operation_type: current.operation_type.clone(),
        effective_date: rep.effective_date,
        currency: current.currency.clone(),
        principal_before_minor: rep.principal_before_minor,
        principal_after_minor: rep.principal_after_minor,
        principal_returned_minor: rep.principal_returned_minor,
        external_capital_minor: rep.external_capital_minor,
        capitalized_interest_minor: rep.capitalized_interest_minor,
        gross_interest_minor: rep.gross_interest_minor,
        withholding_minor: rep.withholding_minor,
        other_deductions_minor: rep.other_deductions_minor,
        net_cash_received_minor: rep.net_cash_received_minor,
        funding_allocation_id: rep.funding_allocation_id,
        funding_contribution_id: copy_opt(&current.funding_contribution_id),
        terms,
        deduction_component_id: rep.deduction_component_id,
        deduction_expense_transaction_id: rep.deduction_expense_transaction_id,
        provenance_source: owned("manual_entry"),
        correction_reason: Some(reason),
        replaces_revision_id: Some(current.id.clone()),
        created_at: String::new(),
    };
    let ghost before = operations@;
    operations.set(idx, copy_cdt_operation(&candidate));
    assert(operations@ == before.update(idx as int, candidate));
    let sorted = sorted_by_date(operations);
    proof {
        lemma_sort_len(before.update(idx as int, candidate));
    }
    match validate_operation_sequence(command, &sorted) {
        Some(e) => {
            assert(candidate_record(candidate, input, before[idx as int]));
            return Err(e);
        },
        None => {},
    }
    let as_of = sorted[sorted.len() - 1].effective_date.clone();
    Ok((candidate, as_of))
}

pub open spec fn opt_ops(o: Option<Vec<CdtOperation>>) -> Option<Seq<CdtOperation>> {
    match o {
        Some(v) => Some(v@),
        None => None,
    }
}

/// Whether two optional strings are equal.
pub fn opt_eq(a: &Option<String>, b: &Option<String>) -> (r: bool)
    ensures
        r == (opt_seq(*a) == opt_seq(*b)),
{
    match (a, b) {
        (Some(x), Some(y)) => str_eq(x.as_str(), y.as_str()),
        (None, None) => true,
        _ => false,
    }
}

proof fn lemma_insert_len(s: Seq<CdtOperation>, x: CdtOperation)
    ensures
        insert_by_date(s, x).len() == s.len() + 1,
    decreases s.len(),
{
    if s.len() > 0 {
        lemma_insert_len(s.drop_last(), x);
    }
}

proof fn lemma_sort_len(s: Seq<CdtOperation>)
    ensures
        sort_by_date(s).len() == s.len(),
    decreases s.len(),
{
    if s.len() > 0 {
        lemma_sort_len(s.drop_last());
        lemma_insert_len(sort_by_date(s.drop_last()), s.last());
    }
}

} // verus!
