//! Review of provider events: which records an event can be reconciled
//! with, the checks before a reconciliation or a snapshot is accepted, and
//! the CDT lifecycle actions a provider event can enrich.
use vstd::prelude::*;
use crate::cdt::{copy_opt, opt_seq};
use crate::documents::{digest, EventType, MatchStatus, Provider, ReconciliationKind, ReviewDecision, ReviewStatus};
use crate::ids::{hex_of, text_sha256};
use crate::review::owned;
use crate::text::{str_eq, to_chars};

verus! {

/// One provider event extracted from a document, with its review state.
#[derive(Debug, Clone, PartialEq, Eq)]
pub struct ProviderEvent {
    pub id: String,
    pub provider: Provider,
    pub parser_id: String,
    pub parser_version: String,
    pub event_type: EventType,
    pub provider_effective_date: String,
    pub currency: String,
    pub amount_minor: Option<i64>,
    pub instrument_hint: Option<String>,
    pub quantity: Option<String>,
    pub external_reference: Option<String>,
    pub page_number: usize,
    pub row_index: usize,
    pub evidence_redaction: String,
    pub fingerprint: String,
    pub status: ReviewStatus,
    pub decision: Option<ReviewDecision>,
    pub reconciled_kind: Option<ReconciliationKind>,
    pub reconciled_id: Option<String>,
    pub source_document_id: String,
    pub import_batch_id: Option<String>,
    pub account_id: Option<String>,
    pub provenance_id: Option<String>,
    pub accepted_snapshot_id: Option<String>,
}

/// A record a provider event could be reconciled with, or why there is none.
pub struct ReconciliationCandidate {
    pub kind: ReconciliationKind,
    pub target_kind: Option<ReconciliationKind>,
    pub target_id: Option<String>,
    pub status: MatchStatus,
    pub reason: String,
}

/// The record a provider event was reconciled with, as stored.
pub struct AuditTarget {
    pub kind: ReconciliationKind,
    pub id: String,
    pub account_id: Option<String>,
    pub effective_date: String,
    pub amount_minor: Option<i64>,
    pub currency: String,
}

/// One position of an accepted snapshot.
pub struct AcceptedSnapshotPositionAudit {
    pub account_id: String,
    pub instrument_id: Option<String>,
    pub quantity: Option<String>,
    pub currency: String,
    pub observed_value_minor: Option<i64>,
}

/// The snapshot accepted from a provider event, with its positions.
pub struct AcceptedSnapshotAudit {
    pub id: String,
    pub provider_effective_date: Option<String>,
    pub position_count: usize,
    pub baseline_count: usize,
    pub positions: Vec<AcceptedSnapshotPositionAudit>,
}

/// Where a provider event came from and what its review decided.
pub struct AuditChain {
    pub source_document_id: String,
    pub import_batch_id: String,
    pub provenance_id: String,
    pub event_account_id: Option<String>,
    pub parser_id: String,
    pub parser_version: String,
    pub page_number: usize,
    pub row_index: usize,
    pub evidence_redaction: String,
    pub decision: Option<ReviewDecision>,
    pub reconciled_target: Option<AuditTarget>,
    pub accepted_snapshot: Option<AcceptedSnapshotAudit>,
}

/// The text of an optional value, empty when absent.
pub open spec fn or_empty(o: Option<String>) -> Seq<char> {
    match o {
        Some(s) => s@,
        None => Seq::<char>::empty(),
    }
}

/// The record to look up for an event's audit: its reconciliation target
/// when that is a canonical transaction or another provider event.
pub fn audit_target_ref(event: &ProviderEvent) -> (r: Option<(ReconciliationKind, String)>)
    ensures
        match (event.reconciled_kind, event.reconciled_id) {
            (Some(ReconciliationKind::CanonicalTransaction), Some(id)) => r == Some((ReconciliationKind::CanonicalTransaction, id)),
            (Some(ReconciliationKind::ProviderEvent), Some(id)) => r == Some((ReconciliationKind::ProviderEvent, id)),
            _ => r is None,
        },
{
    match (event.reconciled_kind, &event.reconciled_id) {
        (Some(ReconciliationKind::CanonicalTransaction), Some(id)) => Some((ReconciliationKind::CanonicalTransaction, id.clone())),
        (Some(ReconciliationKind::ProviderEvent), Some(id)) => Some((ReconciliationKind::ProviderEvent, id.clone())),
        _ => None,
    }
}

/// The audit chain of `event`, given the stored records it points to.
pub fn audit_chain(
    event: &ProviderEvent,
    reconciled_target: Option<AuditTarget>,
    accepted_snapshot: Option<AcceptedSnapshotAudit>,
) -> (r: AuditChain)
    ensures
        r.source_document_id@ == event.source_document_id@,
        r.import_batch_id@ == or_empty(event.import_batch_id),
        r.provenance_id@ == or_empty(event.provenance_id),
        r.event_account_id == event.account_id,
        r.parser_id@ == event.parser_id@,
        r.parser_version@ == event.parser_version@,
        r.page_number == event.page_number,
        r.row_index == event.row_index,
        r.evidence_redaction@ == event.evidence_redaction@,
        r.decision == event.decision,
        r.reconciled_target == reconciled_target,
        r.accepted_snapshot == accepted_snapshot,
{
    let import_batch_id = match &event.import_batch_id {
        Some(s) => s.clone(),
        None => String::new(),
    };
    let provenance_id = match &event.provenance_id {
        Some(s) => s.clone(),
        None => String::new(),
    };
    AuditChain {
        source_document_id: event.source_document_id.clone(),
        import_batch_id,
        provenance_id,
        event_account_id: copy_opt(&event.account_id),
        parser_id: event.parser_id.clone(),
        parser_version: event.parser_version.clone(),
        page_number: event.page_number,
        row_index: event.row_index,
        evidence_redaction: event.evidence_redaction.clone(),
        decision: event.decision,
        reconciled_target,
        accepted_snapshot,
    }
}

/// A refused review action.
pub struct Error {
    pub code: String,
    pub path: String,
    pub message: String,
}

pub open spec fn is_document_error(e: Error, code: Seq<char>, path: Seq<char>, message: Seq<char>) -> bool {
    e.code@ == code && e.path@ == path && e.message@ == message
}

pub(crate) fn document_error(code: &str, path: &str, message: &str) -> (e: Error)
    ensures
        is_document_error(e, code@, path@, message@),
{
    Error { code: owned(code), path: owned(path), message: owned(message) }
}

/// `c` is a reconciliation candidate with these fields.
pub open spec fn candidate_is(
    c: ReconciliationCandidate,
    target_kind: Option<ReconciliationKind>,
    target_id: Option<Seq<char>>,
    status: MatchStatus,
    reason: Seq<char>,
) -> bool {
    &&& c.kind == ReconciliationKind::Reconciliation
    &&& c.target_kind == target_kind
    &&& opt_seq(c.target_id) == target_id
    &&& c.status == status
    &&& c.reason@ == reason
}

/// How many matching targets make which status.
pub open spec fn match_status(n: nat) -> MatchStatus {
    if n == 0 {
        MatchStatus::Unmatched
    } else if n == 1 {
        MatchStatus::UniqueMatch
    } else {
        MatchStatus::AmbiguousMatch
    }
}

/// The event is a movement that reconciles with a canonical transaction or
/// a provider event of the opposite direction.
pub open spec fn is_movement(t: EventType) -> bool {
    t == EventType::Deposit || t == EventType::Withdrawal
}

fn one_candidate(
    target_kind: Option<ReconciliationKind>,
    target_id: Option<String>,
    status: MatchStatus,
    reason: &str,
) -> (r: Vec<ReconciliationCandidate>)
    ensures
        r@.len() == 1,
        candidate_is(r@[0], target_kind, opt_seq(target_id), status, reason@),
{
    let mut v = Vec::new();
    v.push(ReconciliationCandidate {
        kind: ReconciliationKind::Reconciliation,
        target_kind,
        target_id,
        status,
        reason: owned(reason),
    });
    v
}

/// The reconciliation candidates of `event`: refusals when either selected
/// account does not fit, when the event already has a decision or is an
/// observed position; otherwise one candidate per matching target (the
/// canonical transactions `transaction_targets`, then the provider events
/// `event_targets`, both already filtered by storage and used only for
/// deposits and withdrawals), or one unmatched candidate.
pub fn reconciliation_candidates(
    event: &ProviderEvent,
    event_account_compatible: bool,
    counterpart_account_compatible: bool,
    transaction_targets: Vec<String>,
    event_targets: Vec<String>,
) -> (r: Vec<ReconciliationCandidate>)
    ensures
        !event_account_compatible ==> r@.len() == 1 && candidate_is(r@[0], None, None, MatchStatus::Incompatible,
            "The selected event account is not an owned account for this provider and currency."@),
        event_account_compatible && !counterpart_account_compatible ==> r@.len() == 1 && candidate_is(r@[0], None,
            None, MatchStatus::Incompatible,
            "The selected owned counterpart account is missing or uses another currency."@),
        event_account_compatible && counterpart_account_compatible && event.status != ReviewStatus::PendingReview
            ==> r@.len() == 1 && candidate_is(r@[0], event.reconciled_kind, opt_seq(event.reconciled_id),
            MatchStatus::AlreadyReconciled, "The provider event has already received a decision."@),
        event_account_compatible && counterpart_account_compatible && event.status == ReviewStatus::PendingReview
            && event.event_type == EventType::ObservedPosition ==> r@.len() == 1 && candidate_is(r@[0], None, None,
            MatchStatus::Incompatible, "Observed positions are snapshots, not monetary movements."@),
        event_account_compatible && counterpart_account_compatible && event.status == ReviewStatus::PendingReview
            && event.event_type != EventType::ObservedPosition ==> {
            let n = if is_movement(event.event_type) {
                transaction_targets@.len() + event_targets@.len()
            } else {
                0
            };
            &&& n == 0 ==> r@.len() == 1 && candidate_is(r@[0], None, None, MatchStatus::Unmatched,
                "No compatible account-direction-semantics-date-amount-currency target exists."@)
            &&& n > 0 ==> r@.len() == n
                && (forall|i: int| 0 <= i < transaction_targets@.len() ==> candidate_is(#[trigger] r@[i],
                    Some(ReconciliationKind::CanonicalTransaction), Some(transaction_targets@[i]@), match_status(n),
                    "Exact direction-aware compatible target."@))
                && (forall|i: int| 0 <= i < event_targets@.len() ==> candidate_is(
                    #[trigger] r@[transaction_targets@.len() + i], Some(ReconciliationKind::ProviderEvent),
                    Some(event_targets@[i]@), match_status(n), "Exact direction-aware compatible target."@))
        },
{
    if !event_account_compatible {
        return one_candidate(None, None, MatchStatus::Incompatible,
            "The selected event account is not an owned account for this provider and currency.");
    }
    if !counterpart_account_compatible {
        return one_candidate(None, None, MatchStatus::Incompatible,
            "The selected owned counterpart account is missing or uses another currency.");
    }
    if event.status != ReviewStatus::PendingReview {
        return one_candidate(event.reconciled_kind, copy_opt(&event.reconciled_id), MatchStatus::AlreadyReconciled,
            "The provider event has already received a decision.");
    }
    if event.event_type == EventType::ObservedPosition {
        return one_candidate(None, None, MatchStatus::Incompatible,
            "Observed positions are snapshots, not monetary movements.");
    }
    let movement = event.event_type == EventType::Deposit || event.event_type == EventType::Withdrawal;
    let ghost n: nat = if movement { (transaction_targets@.len() + event_targets@.len()) as nat } else { 0 };
    if !movement || (transaction_targets.len() == 0 && event_targets.len() == 0) {
        return one_candidate(None, None, MatchStatus::Unmatched,
            "No compatible account-direction-semantics-date-amount-currency target exists.");
    }
    let unique = (transaction_targets.len() == 1 && event_targets.len() == 0)
        || (transaction_targets.len() == 0 && event_targets.len() == 1);
    let status = if unique { MatchStatus::UniqueMatch } else { MatchStatus::AmbiguousMatch };
    let mut out: Vec<ReconciliationCandidate> = Vec::new();
    let mut i: usize = 0;
    while i < transaction_targets.len()
        invariant
            i <= transaction_targets@.len(),
            out@.len() == i,
            status == match_status(n),
            forall|j: int| 0 <= j < i ==> candidate_is(#[trigger] out@[j], Some(ReconciliationKind::CanonicalTransaction),
                Some(transaction_targets@[j]@), status, "Exact direction-aware compatible target."@),
        decreases transaction_targets.len() - i,
    {
        out.push(ReconciliationCandidate {
            kind: ReconciliationKind::Reconciliation,
            target_kind: Some(ReconciliationKind::CanonicalTransaction),
            target_id: Some(transaction_targets[i].clone()),
            status,
            reason: owned("Exact direction-aware compatible target."),
        });
        i = i + 1;
    }
    let mut k: usize = 0;
    while k < event_targets.len()
        invariant
            k <= event_targets@.len(),
            out@.len() == transaction_targets@.len() + k,
            status == match_status(n),
            forall|j: int| 0 <= j < transaction_targets@.len() ==> candidate_is(#[trigger] out@[j],
                Some(ReconciliationKind::CanonicalTransaction), Some(transaction_targets@[j]@), status,
                "Exact direction-aware compatible target."@),
            forall|j: int| 0 <= j < k ==> candidate_is(#[trigger] out@[transaction_targets@.len() + j],
                Some(ReconciliationKind::ProviderEvent), Some(event_targets@[j]@), status,
                "Exact direction-aware compatible target."@),
        decreases event_targets.len() - k,
    {
        out.push(ReconciliationCandidate {
            kind: ReconciliationKind::Reconciliation,
            target_kind: Some(ReconciliationKind::ProviderEvent),
            target_id: Some(event_targets[k].clone()),
            status,
            reason: owned("Exact direction-aware compatible target."),
        });
        k = k + 1;
    }
    out
}

/// The provider event type a movement decision reconciles.
pub open spec fn expected_movement(decision: ReviewDecision) -> EventType {
    if decision == ReviewDecision::ReconcileDeposit { EventType::Deposit } else { EventType::Withdrawal }
}

/// Some candidate is the unique match with this target.
pub open spec fn selected_unique(candidates: Seq<ReconciliationCandidate>, kind: ReconciliationKind, target_id: Seq<char>) -> bool {
    exists|i: int| 0 <= i < candidates.len() && (#[trigger] candidates[i]).status == MatchStatus::UniqueMatch
        && candidates[i].target_kind == Some(kind) && opt_seq(candidates[i].target_id) == Some(target_id)
}

/// Why reconciling a deposit or withdrawal event with a target is refused,
/// checked in this order.
pub open spec fn spec_movement_failure(
    decision: ReviewDecision,
    target_kind: ReconciliationKind,
    event: Option<ProviderEvent>,
    candidates: Seq<ReconciliationCandidate>,
    target_id: Seq<char>,
) -> Option<(Seq<char>, Seq<char>, Seq<char>)> {
    if !(target_kind == ReconciliationKind::CanonicalTransaction || target_kind == ReconciliationKind::ProviderEvent) {
        Some(("invalid_reconciliation_kind"@, "target"@,
            "A movement target must be a canonical transaction or provider event."@))
    } else if event is None || event->0.event_type != expected_movement(decision) {
        Some(("incompatible_event_type"@, "event_id"@, "The typed action does not match the provider event semantics."@))
    } else if !selected_unique(candidates, target_kind, target_id) {
        Some(("reconciliation_mismatch"@, "target_id"@,
            "The selected target is not the unique account/reference/direction-aware candidate."@))
    } else {
        None
    }
}

/// Checks a deposit or withdrawal reconciliation against the event and its
/// candidates before anything is stored.
pub fn check_movement(
    decision: ReviewDecision,
    target_kind: ReconciliationKind,
    event: &Option<ProviderEvent>,
    candidates: &Vec<ReconciliationCandidate>,
    target_id: &str,
) -> (r: Result<(), Error>)
    requires
        decision == ReviewDecision::ReconcileDeposit || decision == ReviewDecision::ReconcileWithdrawal,
    ensures
        spec_movement_failure(decision, target_kind, *event, candidates@, target_id@) matches Some(f) ==> (r matches Err(e)
            && is_document_error(e, f.0, f.1, f.2)),
        spec_movement_failure(decision, target_kind, *event, candidates@, target_id@) is None ==> r is Ok,
{
    if !(target_kind == ReconciliationKind::CanonicalTransaction || target_kind == ReconciliationKind::ProviderEvent) {
        return Err(document_error("invalid_reconciliation_kind", "target",
            "A movement target must be a canonical transaction or provider event."));
    }
    let expected = if decision == ReviewDecision::ReconcileDeposit { EventType::Deposit } else { EventType::Withdrawal };
    assert(expected == expected_movement(decision));
    let fits = match event {
        Some(e) => e.event_type == expected,
        None => false,
    };
    if !fits {
        return Err(document_error("incompatible_event_type", "event_id",
            "The typed action does not match the provider event semantics."));
    }
    let mut i: usize = 0;
    while i < candidates.len()
        invariant
            i <= candidates@.len(),
            target_kind == ReconciliationKind::CanonicalTransaction || target_kind == ReconciliationKind::ProviderEvent,
            event is Some && event->0.event_type == expected_movement(decision),
            forall|j: int| 0 <= j < i ==> !((#[trigger] candidates@[j]).status == MatchStatus::UniqueMatch
                && candidates@[j].target_kind == Some(target_kind) && opt_seq(candidates@[j].target_id) == Some(target_id@)),
        decreases candidates.len() - i,
    {
        let c = &candidates[i];
        let id_same = match &c.target_id {
            Some(t) => str_eq(t.as_str(), target_id),
            None => false,
        };
        if c.status == MatchStatus::UniqueMatch && c.target_kind == Some(target_kind) && id_same {
            assert(selected_unique(candidates@, target_kind, target_id@)) by {
                assert(candidates@[i as int].status == MatchStatus::UniqueMatch);
            }
            return Ok(());
        }
        i = i + 1;
    }
    Err(document_error("reconciliation_mismatch", "target_id",
        "The selected target is not the unique account/reference/direction-aware candidate."))
}

/// Why accepting an observed position as a snapshot is refused, checked in
/// this order; `compatible` says the account and instrument fit the
/// observation.
pub open spec fn spec_snapshot_failure(event: Option<ProviderEvent>, compatible: bool) -> Option<(Seq<char>, Seq<char>, Seq<char>)> {
    if event is None {
        Some(("event_not_found"@, "event_id"@, "Provider event was not found."@))
    } else {
        let e = event->0;
        if e.status != ReviewStatus::PendingReview {
            Some(("event_not_pending"@, "event_id"@, "Provider event was already reviewed."@))
        } else if e.event_type != EventType::ObservedPosition || e.quantity is None || e.amount_minor is None
            || e.instrument_hint is None {
            Some(("incomplete_snapshot"@, "event"@, "Only a complete observed position can become a dated snapshot."@))
        } else if !compatible {
            Some(("snapshot_target_incompatible"@, "instrument_id"@,
                "Account and instrument are not compatible with the provider observation."@))
        } else {
            None
        }
    }
}

/// The snapshot an observation becomes: `snapshot_` and the first 24 hex
/// digits of the digest of its fingerprint.
pub open spec fn snapshot_id_of(fingerprint: Seq<char>) -> Seq<char> {
    "snapshot_"@ + hex_of(text_sha256(fingerprint)).subrange(0, 24)
}

/// Checks that an observed position can become a dated snapshot and names
/// that snapshot.
pub fn snapshot_for(event: &Option<ProviderEvent>, compatible: bool) -> (r: Result<String, Error>)
    ensures
        spec_snapshot_failure(*event, compatible) matches Some(f) ==> (r matches Err(e) && is_document_error(
            e, f.0, f.1, f.2)),
        spec_snapshot_failure(*event, compatible) is None ==> (r matches Ok(id) && id@ == snapshot_id_of(
            event->0.fingerprint@)),
{
    let e = match event {
        Some(e) => e,
        None => return Err(document_error("event_not_found", "event_id", "Provider event was not found.")),
    };
    if e.status != ReviewStatus::PendingReview {
        return Err(document_error("event_not_pending", "event_id", "Provider event was already reviewed."));
    }
    if e.event_type != EventType::ObservedPosition || e.quantity.is_none() || e.amount_minor.is_none()
        || e.instrument_hint.is_none() {
        return Err(document_error("incomplete_snapshot", "event",
            "Only a complete observed position can become a dated snapshot."));
    }
    if !compatible {
        return Err(document_error("snapshot_target_incompatible", "instrument_id",
            "Account and instrument are not compatible with the provider observation."));
    }
    let d = digest(e.fingerprint.as_str());
    let dv = to_chars(d.as_str());
    let mut id = owned("snapshot_");
    crate::text::push_chars(&mut id, &dv, 0, 24);
    assert(id@ =~= snapshot_id_of(e.fingerprint@));
    Ok(id)
}

} // verus!
