//! Enrichment of CDT lifecycles with provider evidence: which lifecycle
//! actions a provider event supports, and how a chosen action becomes a CDT
//! operation or a link to an existing one.
use vstd::prelude::*;
use crate::cdt::{CdtConstitutionInput, CdtRedemptionInput, CdtRenewalInput, CdtTermsInput};
use crate::documents::{EventType, ReviewStatus};
use crate::provider_review::{is_document_error, Error, ProviderEvent};
use crate::review::owned;
use crate::text::str_eq;

verus! {

#[derive(Debug, Clone, Copy, PartialEq, Eq, Structural)]
pub enum LifecycleAction {
    Constitution,
    Renewal,
    Redemption,
    LinkExisting,
}

#[derive(Debug, Clone, Copy, PartialEq, Eq, Structural)]
pub enum ActionStatus {
    RequiresExplicitData,
}

/// A lifecycle action an event supports and the fields the caller must give.
pub struct ActionPreview {
    pub action: LifecycleAction,
    pub status: ActionStatus,
    pub required_reviewer_fields: Vec<String>,
}

/// Which CDT operation a provider event was matched to.
#[derive(Debug, Clone, Copy, PartialEq, Eq, Structural)]
pub enum CdtProviderDecision {
    Constitution,
    Renewal,
    Redemption,
}

/// The lifecycle action chosen for a provider event, with its explicit terms.
pub enum Request {
    LinkExisting {
        operation_revision_id: String,
    },
    Constitution {
        allocation_id: String,
        maturity_date: String,
        agreed_rate: Option<String>,
        payment_mode: Option<String>,
        payment_periodicity: Option<String>,
        renewal_terms: Option<String>,
        contract_identifier: Option<String>,
        allows_partial_redemption: bool,
    },
    Renewal {
        position_id: String,
        additional_allocation_id: Option<String>,
        external_capital_minor: i64,
        capitalized_interest_minor: i64,
        gross_interest_minor: i64,
        withholding_minor: i64,
        other_deductions_minor: i64,
        maturity_date: String,
        agreed_rate: Option<String>,
        payment_mode: Option<String>,
        payment_periodicity: Option<String>,
        renewal_terms: Option<String>,
        contract_identifier: Option<String>,
        allows_partial_redemption: bool,
        deduction_component_id: Option<String>,
        deduction_expense_transaction_id: Option<String>,
    },
    Redemption {
        position_id: String,
        principal_returned_minor: i64,
        gross_interest_minor: i64,
        withholding_minor: i64,
        other_deductions_minor: i64,
        deduction_component_id: Option<String>,
        deduction_expense_transaction_id: Option<String>,
    },
}

/// The CDT operation a linked provider event points at, as storage has it.
pub struct StoredOperation {
    pub operation_type: String,
    pub effective_date: String,
    pub currency: String,
    pub principal_after_minor: i64,
    pub net_cash_received_minor: i64,
}

/// What applying an enrichment does.
pub enum EnrichmentAction {
    Link { decision: CdtProviderDecision, operation_revision_id: String },
    Constitute(CdtConstitutionInput),
    Renew(CdtRenewalInput),
    Redeem(CdtRedemptionInput),
}

fn fail(code: &str, path: &str, message: &str) -> (e: Error)
    ensures
        is_document_error(e, code@, path@, message@),
{
    Error { code: owned(code), path: owned(path), message: owned(message) }
}

/// Why a provider event supports no lifecycle action.
pub open spec fn spec_preview_failure(event: Option<ProviderEvent>) -> Option<(Seq<char>, Seq<char>, Seq<char>)> {
    if event is None {
        Some(("event_not_found"@, "event_id"@, "Provider event was not found."@))
    } else if event->0.status != ReviewStatus::PendingReview {
        Some(("event_not_pending"@, "event_id"@, "Provider event was already reviewed."@))
    } else if event->0.event_type != EventType::CdtOpening && event->0.event_type != EventType::CdtReturn {
        Some(("incompatible_event_type"@, "event_id"@,
            "Only CDT opening or return evidence supports lifecycle enrichment."@))
    } else {
        None
    }
}

/// The lifecycle actions each event type supports.
pub open spec fn supported_actions(t: EventType) -> Seq<LifecycleAction> {
    if t == EventType::CdtOpening {
        seq![LifecycleAction::Constitution, LifecycleAction::LinkExisting]
    } else {
        seq![LifecycleAction::Renewal, LifecycleAction::Redemption, LifecycleAction::LinkExisting]
    }
}

/// The fields the caller must give for each action.
pub open spec fn required_fields(a: LifecycleAction) -> Seq<Seq<char>> {
    match a {
        LifecycleAction::Constitution => seq!["allocation_id"@, "maturity_date"@, "allows_partial_redemption"@],
        LifecycleAction::LinkExisting => seq!["operation_revision_id"@],
        LifecycleAction::Renewal => seq!["position_id"@, "external_capital_minor"@, "capitalized_interest_minor"@,
            "gross_interest_minor"@, "withholding_minor"@, "other_deductions_minor"@, "maturity_date"@,
            "allows_partial_redemption"@],
        LifecycleAction::Redemption => seq!["position_id"@, "principal_returned_minor"@, "gross_interest_minor"@,
            "withholding_minor"@, "other_deductions_minor"@],
    }
}

pub open spec fn field_names(v: Seq<String>) -> Seq<Seq<char>> {
    v.map_values(|s: String| s@)
}

fn fields(names: &[&str]) -> (r: Vec<String>)
    ensures
        r@.len() == names@.len(),
        forall|i: int| 0 <= i < r@.len() ==> (#[trigger] r@[i])@ == names@[i]@,
{
    let mut out: Vec<String> = Vec::new();
    let mut i: usize = 0;
    while i < names.len()
        invariant
            i <= names@.len(),
            out@.len() == i,
            forall|j: int| 0 <= j < i ==> (#[trigger] out@[j])@ == names@[j]@,
        decreases names.len() - i,
    {
        out.push(owned(names[i]));
        i = i + 1;
    }
    out
}

fn action_preview(action: LifecycleAction) -> (r: ActionPreview)
    ensures
        r.action == action,
        r.status == ActionStatus::RequiresExplicitData,
        field_names(r.required_reviewer_fields@) == required_fields(action),
{
    let names = match action {
        LifecycleAction::Constitution => fields(&["allocation_id", "maturity_date", "allows_partial_redemption"]),
        LifecycleAction::LinkExisting => fields(&["operation_revision_id"]),
        LifecycleAction::Renewal => fields(&["position_id", "external_capital_minor", "capitalized_interest_minor",
            "gross_interest_minor", "withholding_minor", "other_deductions_minor", "maturity_date",
            "allows_partial_redemption"]),
        LifecycleAction::Redemption => fields(&["position_id", "principal_returned_minor", "gross_interest_minor",
            "withholding_minor", "other_deductions_minor"]),
    };
    assert(field_names(names@) =~= required_fields(action));
    ActionPreview { action, status: ActionStatus::RequiresExplicitData, required_reviewer_fields: names }
}

/// The lifecycle actions a pending CDT opening or return event supports.
pub fn preview(event: &Option<ProviderEvent>) -> (r: Result<Vec<ActionPreview>, Error>)
    ensures
        spec_preview_failure(*event) matches Some(f) ==> (r matches Err(e) && is_document_error(e, f.0, f.1, f.2)),
        spec_preview_failure(*event) is None ==> (r matches Ok(v) && v@.len() == supported_actions(event->0.event_type).len()
            && forall|i: int| 0 <= i < v@.len() ==> (#[trigger] v@[i]).action == supported_actions(event->0.event_type)[i]
                && v@[i].status == ActionStatus::RequiresExplicitData
                && field_names(v@[i].required_reviewer_fields@) == required_fields(v@[i].action)),
{
    let e = match event {
        Some(e) => e,
        None => return Err(fail("event_not_found", "event_id", "Provider event was not found.")),
    };
    if e.status != ReviewStatus::PendingReview {
        return Err(fail("event_not_pending", "event_id", "Provider event was already reviewed."));
    }
    let mut v: Vec<ActionPreview> = Vec::new();
    if e.event_type == EventType::CdtOpening {
        v.push(action_preview(LifecycleAction::Constitution));
        v.push(action_preview(LifecycleAction::LinkExisting));
    } else if e.event_type == EventType::CdtReturn {
        v.push(action_preview(LifecycleAction::Renewal));
        v.push(action_preview(LifecycleAction::Redemption));
        v.push(action_preview(LifecycleAction::LinkExisting));
    } else {
        return Err(fail("incompatible_event_type", "event_id",
            "Only CDT opening or return evidence supports lifecycle enrichment."));
    }
    Ok(v)
}

/// The request's action fits the event: constitutions for openings,
/// renewals and redemptions for returns, links for both.
pub open spec fn request_fits(r: Request, t: EventType) -> bool {
    match r {
        Request::LinkExisting { .. } => t == EventType::CdtOpening || t == EventType::CdtReturn,
        Request::Constitution { .. } => t == EventType::CdtOpening,
        Request::Renewal { .. } => t == EventType::CdtReturn,
        Request::Redemption { .. } => t == EventType::CdtReturn,
    }
}

/// The stored operation matches the event in kind, date, currency and amount.
pub open spec fn link_fits(e: ProviderEvent, s: StoredOperation) -> bool {
    let semantics = if e.event_type == EventType::CdtOpening {
        s.operation_type@ == "constitution"@ && e.amount_minor == Some(s.principal_after_minor)
    } else if e.event_type == EventType::CdtReturn {
        (s.operation_type@ == "renewal"@ || s.operation_type@ == "redemption"@)
            && e.amount_minor == Some(s.net_cash_received_minor)
    } else {
        false
    };
    semantics && s.effective_date@ == e.provider_effective_date@ && s.currency@ == e.currency@
}

/// Why enriching a CDT lifecycle with a provider event is refused, checked
/// in this order; `target_compatible` says the chosen allocation, position
/// or operation belongs to the event's provider (and account).
pub open spec fn spec_enrich_failure(
    event: Option<ProviderEvent>,
    request: Request,
    target_compatible: bool,
    stored: Option<StoredOperation>,
) -> Option<(Seq<char>, Seq<char>, Seq<char>)> {
    if spec_preview_failure(event) is Some {
        spec_preview_failure(event)
    } else if !request_fits(request, event->0.event_type) {
        Some(("incompatible_lifecycle_action"@, "request_json.action"@,
            "The lifecycle action is incompatible with the provider event semantics."@))
    } else if !target_compatible {
        Some(("cdt_target_incompatible"@, "request_json"@,
            "Selected allocation, position, or operation is incompatible with provider evidence."@))
    } else if request is LinkExisting && stored is None {
        Some(("cdt_operation_not_found"@, "request_json.operation_revision_id"@,
            "Canonical CDT operation was not found."@))
    } else if request is LinkExisting && !link_fits(event->0, stored->0) {
        Some(("existing_operation_incompatible"@, "request_json.operation_revision_id"@,
            "Existing operation does not exactly match provider event semantics, date, currency, and amount."@))
    } else {
        None
    }
}

/// The decision a linked stored operation records.
pub open spec fn link_decision(operation_type: Seq<char>) -> CdtProviderDecision {
    if operation_type == "constitution"@ {
        CdtProviderDecision::Constitution
    } else if operation_type == "renewal"@ {
        CdtProviderDecision::Renewal
    } else {
        CdtProviderDecision::Redemption
    }
}

/// The terms given in the request.
pub open spec fn terms_from(t: CdtTermsInput, maturity: String, rate: Option<String>, mode: Option<String>, periodicity: Option<String>, renewal: Option<String>, contract: Option<String>, partial: bool) -> bool {
    t == CdtTermsInput {
        maturity_date: maturity,
        agreed_rate: rate,
        payment_mode: mode,
        payment_periodicity: periodicity,
        renewal_terms: renewal,
        contract_identifier: contract,
        allows_partial_redemption: partial,
    }
}

/// What applying the request does: a link records the stored operation's
/// kind; the other actions become CDT operations dated, denominated and
/// valued by the event (an event without amount counts zero), with the
/// request's explicit terms.
pub open spec fn action_matches(a: EnrichmentAction, e: ProviderEvent, request: Request, stored: Option<StoredOperation>) -> bool {
    let amount: i64 = match e.amount_minor {
        Some(x) => x,
        None => 0,
    };
    match request {
        Request::LinkExisting { operation_revision_id } => a matches EnrichmentAction::Link { decision, operation_revision_id: id }
            && decision == link_decision(stored->0.operation_type@) && id == operation_revision_id,
        Request::Constitution { allocation_id, maturity_date, agreed_rate, payment_mode, payment_periodicity,
            renewal_terms, contract_identifier, allows_partial_redemption } => a matches EnrichmentAction::Constitute(i)
            && i.allocation_id == allocation_id && i.principal_minor == amount && i.currency == e.currency
            && i.constitution_date == e.provider_effective_date && terms_from(i.terms, maturity_date, agreed_rate,
            payment_mode, payment_periodicity, renewal_terms, contract_identifier, allows_partial_redemption),
        Request::Renewal { position_id, additional_allocation_id, external_capital_minor, capitalized_interest_minor,
            gross_interest_minor, withholding_minor, other_deductions_minor, maturity_date, agreed_rate, payment_mode,
            payment_periodicity, renewal_terms, contract_identifier, allows_partial_redemption, deduction_component_id,
            deduction_expense_transaction_id } => a matches EnrichmentAction::Renew(i)
            && i.position_id == position_id && i.effective_date == e.provider_effective_date
            && i.additional_allocation_id == additional_allocation_id && i.external_capital_minor == external_capital_minor
            && i.capitalized_interest_minor == capitalized_interest_minor && i.gross_interest_minor == gross_interest_minor
            && i.withholding_minor == withholding_minor && i.other_deductions_minor == other_deductions_minor
            && i.net_cash_received_minor == amount && i.deduction_component_id == deduction_component_id
            && i.deduction_expense_transaction_id == deduction_expense_transaction_id && terms_from(i.terms, maturity_date,
            agreed_rate, payment_mode, payment_periodicity, renewal_terms, contract_identifier, allows_partial_redemption),
        Request::Redemption { position_id, principal_returned_minor, gross_interest_minor, withholding_minor,
            other_deductions_minor, deduction_component_id, deduction_expense_transaction_id } => a matches EnrichmentAction::Redeem(i)
            && i.position_id == position_id && i.effective_date == e.provider_effective_date
            && i.principal_returned_minor == principal_returned_minor && i.gross_interest_minor == gross_interest_minor
            && i.withholding_minor == withholding_minor && i.other_deductions_minor == other_deductions_minor
            && i.net_cash_received_minor == amount && i.deduction_component_id == deduction_component_id
            && i.deduction_expense_transaction_id == deduction_expense_transaction_id,
    }
}

/// Decides how a pending CDT provider event enriches a lifecycle.
pub fn enrich(
    event: &Option<ProviderEvent>,
    request: Request,
    target_compatible: bool,
    stored: &Option<StoredOperation>,
) -> (r: Result<EnrichmentAction, Error>)
    ensures
        spec_enrich_failure(*event, request, target_compatible, *stored) matches Some(f) ==> (r matches Err(e)
            && is_document_error(e, f.0, f.1, f.2)),
        spec_enrich_failure(*event, request, target_compatible, *stored) is None ==> (r matches Ok(a)
            && action_matches(a, event->0, request, *stored)),
{
    match preview(event) {
        Ok(_) => {},
        Err(e) => return Err(e),
    }
    let e = match event {
        Some(e) => e,
        None => return Err(fail("event_not_found", "event_id", "Provider event was not found.")),
    };
    let fits = match &request {
        Request::LinkExisting { .. } => e.event_type == EventType::CdtOpening || e.event_type == EventType::CdtReturn,
        Request::Constitution { .. } => e.event_type == EventType::CdtOpening,
        Request::Renewal { .. } => e.event_type == EventType::CdtReturn,
        Request::Redemption { .. } => e.event_type == EventType::CdtReturn,
    };
    if !fits {
        return Err(fail("incompatible_lifecycle_action", "request_json.action",
            "The lifecycle action is incompatible with the provider event semantics."));
    }
    if !target_compatible {
        return Err(fail("cdt_target_incompatible", "request_json",
            "Selected allocation, position, or operation is incompatible with provider evidence."));
    }
    let amount: i64 = match e.amount_minor {
        Some(x) => x,
        None => 0,
    };
    match request {
        Request::LinkExisting { operation_revision_id } => {
            let s = match stored {
                Some(s) => s,
                None => return Err(fail("cdt_operation_not_found", "request_json.operation_revision_id",
                    "Canonical CDT operation was not found.")),
            };
            let t = s.operation_type.as_str();
            let semantics = if e.event_type == EventType::CdtOpening {
                str_eq(t, "constitution") && e.amount_minor == Some(s.principal_after_minor)
            } else {
                (str_eq(t, "renewal") || str_eq(t, "redemption")) && e.amount_minor == Some(s.net_cash_received_minor)
            };
            if !semantics || !str_eq(s.effective_date.as_str(), e.provider_effective_date.as_str())
                || !str_eq(s.currency.as_str(), e.currency.as_str()) {
                return Err(fail("existing_operation_incompatible", "request_json.operation_revision_id",
                    "Existing operation does not exactly match provider event semantics, date, currency, and amount."));
            }
            let decision = if str_eq(t, "constitution") {
                CdtProviderDecision::Constitution
            } else if str_eq(t, "renewal") {
                CdtProviderDecision::Renewal
            } else {
                CdtProviderDecision::Redemption
            };
            Ok(EnrichmentAction::Link { decision, operation_revision_id })
        },
        Request::Constitution { allocation_id, maturity_date, agreed_rate, payment_mode, payment_periodicity,
            renewal_terms, contract_identifier, allows_partial_redemption } => {
            Ok(EnrichmentAction::Constitute(CdtConstitutionInput {
                allocation_id,
                principal_minor: amount,
                currency: e.currency.clone(),
                constitution_date: e.provider_effective_date.clone(),
                terms: CdtTermsInput {
                    maturity_date,
                    agreed_rate,
                    payment_mode,
                    payment_periodicity,
                    renewal_terms,
                    contract_identifier,
                    allows_partial_redemption,
                },
            }))
        },
        Request::Renewal { position_id, additional_allocation_id, external_capital_minor, capitalized_interest_minor,
            gross_interest_minor, withholding_minor, other_deductions_minor, maturity_date, agreed_rate, payment_mode,
            payment_periodicity, renewal_terms, contract_identifier, allows_partial_redemption, deduction_component_id,
            deduction_expense_transaction_id } => {
            Ok(EnrichmentAction::Renew(CdtRenewalInput {
                position_id,
                effective_date: e.provider_effective_date.clone(),
                additional_allocation_id,
                external_capital_minor,
                capitalized_interest_minor,
                gross_interest_minor,
                withholding_minor,
                other_deductions_minor,
                net_cash_received_minor: amount,
                deduction_component_id,
                deduction_expense_transaction_id,
                terms: CdtTermsInput {
                    maturity_date,
                    agreed_rate,
                    payment_mode,
                    payment_periodicity,
                    renewal_terms,
                    contract_identifier,
                    allows_partial_redemption,
                },
            }))
        },
        Request::Redemption { position_id, principal_returned_minor, gross_interest_minor, withholding_minor,
            other_deductions_minor, deduction_component_id, deduction_expense_transaction_id } => {
            Ok(EnrichmentAction::Redeem(CdtRedemptionInput {
                position_id,
                effective_date: e.provider_effective_date.clone(),
                principal_returned_minor,
                gross_interest_minor,
                withholding_minor,
                other_deductions_minor,
                net_cash_received_minor: amount,
                deduction_component_id,
                deduction_expense_transaction_id,
            }))
        },
    }
}

} // verus!
