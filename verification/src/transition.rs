//! Root transitions: an approved change of a memory root, proposed against
//! the root it expects, rebased a bounded number of times, and deferred where
//! the races are lost.
use vstd::prelude::*;
use vstd::string::*;
use crate::event;
use crate::event::{Event, EventView};
use crate::ids::{Digest, Id128};
use crate::json;
use crate::json::{Json, JsonView};
use crate::memory::{MemoryScope, MemoryScopeView};
use crate::tools::{Principal, PrincipalView};
use crate::value;
use crate::value::Value;

verus! {

broadcast use value::group_views;

/// How often a transition is proposed before it is deferred.
pub const MAX_ATTEMPTS: u64 = 3;

/// Why a root changes.
#[derive(Debug, Clone, Copy, PartialEq, Eq, Structural)]
pub enum TransitionKind {
    RootApproval,
    Promotion,
}

/// A change of a root that was approved.
#[derive(Debug, Clone, PartialEq, Eq)]
pub struct TransitionRequest {
    pub scope: MemoryScope,
    /// The scope as records carry it.
    pub scope_document: Json,
    pub kind: TransitionKind,
    /// The kind of the event that the change originates in.
    pub origin_kind: String,
    pub origin_payload: Json,
    pub decision_digest: Digest,
    pub added_claims: Vec<Digest>,
    pub added_edges: Vec<Digest>,
    pub retracted: Vec<Digest>,
    pub deferred_claim: Digest,
    pub expected_root: Option<Digest>,
}

pub struct TransitionRequestView {
    pub scope: MemoryScopeView,
    pub scope_document: JsonView,
    pub kind: TransitionKind,
    pub origin_kind: Seq<char>,
    pub origin_payload: JsonView,
    pub decision_digest: Seq<char>,
    pub added_claims: Seq<Seq<char>>,
    pub added_edges: Seq<Seq<char>>,
    pub retracted: Seq<Seq<char>>,
    pub deferred_claim: Seq<char>,
    pub expected_root: Option<Seq<char>>,
}

impl View for TransitionRequest {
    type V = TransitionRequestView;

    open spec fn view(&self) -> TransitionRequestView {
        TransitionRequestView {
            scope: self.scope@,
            scope_document: self.scope_document@,
            kind: self.kind,
            origin_kind: self.origin_kind@,
            origin_payload: self.origin_payload@,
            decision_digest: self.decision_digest@,
            added_claims: value::views(self.added_claims@),
            added_edges: value::views(self.added_edges@),
            retracted: value::views(self.retracted@),
            deferred_claim: self.deferred_claim@,
            expected_root: value::opt_view(self.expected_root),
        }
    }
}

impl Value for TransitionRequest {
    fn copy(&self) -> (r: Self) {
        TransitionRequest {
            scope: self.scope.copy(),
            scope_document: self.scope_document.copy(),
            kind: self.kind,
            origin_kind: self.origin_kind.copy(),
            origin_payload: self.origin_payload.copy(),
            decision_digest: self.decision_digest.copy(),
            added_claims: value::copy_vec(&self.added_claims),
            added_edges: value::copy_vec(&self.added_edges),
            retracted: value::copy_vec(&self.retracted),
            deferred_claim: self.deferred_claim.copy(),
            expected_root: value::copy_opt(&self.expected_root),
        }
    }

    fn same(&self, other: &Self) -> (r: bool) {
        self.scope.same(&other.scope)
            && self.scope_document.same(&other.scope_document)
            && self.kind == other.kind
            && self.origin_kind.same(&other.origin_kind)
            && self.origin_payload.same(&other.origin_payload)
            && self.decision_digest.same(&other.decision_digest)
            && value::same_vec(&self.added_claims, &other.added_claims)
            && value::same_vec(&self.added_edges, &other.added_edges)
            && value::same_vec(&self.retracted, &other.retracted)
            && self.deferred_claim.same(&other.deferred_claim)
            && value::same_opt(&self.expected_root, &other.expected_root)
    }
}

/// Where a transition stands: what the host is to do next.
#[derive(Debug, Clone, PartialEq, Eq)]
pub enum TransitionPhase {
    /// Commit the event that the change originates in.
    Origin,
    /// Propose the change against the root it expects.
    Propose { origin: u64, attempt: u64, expected: Option<Digest> },
    /// Commit the backlink, with the state that the new root gives.
    Backlink { transition: Id128 },
    /// Commit that the change is deferred, and what it left behind.
    Defer { installed: Vec<Digest> },
    Approved { transition: Id128 },
    Deferred,
}

pub enum TransitionPhaseView {
    Origin,
    Propose { origin: u64, attempt: u64, expected: Option<Seq<char>> },
    Backlink { transition: Seq<char> },
    Defer { installed: Seq<Seq<char>> },
    Approved { transition: Seq<char> },
    Deferred,
}

impl View for TransitionPhase {
    type V = TransitionPhaseView;

    open spec fn view(&self) -> TransitionPhaseView {
        match *self {
            TransitionPhase::Origin => TransitionPhaseView::Origin,
            TransitionPhase::Propose { origin, attempt, expected } => TransitionPhaseView::Propose { origin, attempt, expected: value::opt_view(expected) },
            TransitionPhase::Backlink { transition } => TransitionPhaseView::Backlink { transition: transition@ },
            TransitionPhase::Defer { installed } => TransitionPhaseView::Defer { installed: value::views(installed@) },
            TransitionPhase::Approved { transition } => TransitionPhaseView::Approved { transition: transition@ },
            TransitionPhase::Deferred => TransitionPhaseView::Deferred,
        }
    }
}

/// A transition under way.
pub struct Transition {
    request: TransitionRequest,
    phase: TransitionPhase,
}

pub struct TransitionView {
    pub request: TransitionRequestView,
    pub phase: TransitionPhaseView,
}

impl View for Transition {
    type V = TransitionView;

    closed spec fn view(&self) -> TransitionView {
        TransitionView { request: self.request@, phase: self.phase@ }
    }
}

/// A change is proposed at most so often.
pub open spec fn bounded(t: TransitionView) -> bool {
    t.phase matches TransitionPhaseView::Propose { attempt, .. } ==> attempt < MAX_ATTEMPTS
}

/// What a proposal came to.
#[derive(Debug, Clone, PartialEq, Eq)]
pub enum Proposed {
    Committed { transition: Id128 },
    /// The root was another; these objects were installed all the same.
    Lost { actual: Option<Digest>, installed: Vec<Digest> },
}

/// The transition after a proposal: a lost race is tried again on the actual
/// root, and deferred after the last attempt.
pub open spec fn after_proposal(t: TransitionView, outcome: Proposed) -> TransitionView {
    match (t.phase, outcome) {
        (TransitionPhaseView::Propose { .. }, Proposed::Committed { transition }) => TransitionView {
            phase: TransitionPhaseView::Backlink { transition: transition@ },
            ..t
        },
        (
            TransitionPhaseView::Propose { origin, attempt, .. },
            Proposed::Lost { actual, installed },
        ) => if attempt + 1 < MAX_ATTEMPTS {
            TransitionView {
                phase: TransitionPhaseView::Propose {
                    origin,
                    attempt: (attempt + 1) as u64,
                    expected: value::opt_view(actual),
                },
                ..t
            }
        } else {
            TransitionView {
                phase: TransitionPhaseView::Defer { installed: value::views(installed@) },
                ..t
            }
        },
        _ => t,
    }
}

/// The record that ties the session to an accepted transition.
pub open spec fn backlink(transition: Seq<char>, scope: JsonView) -> EventView {
    event::document(
        "memory_transition_backlink"@,
        JsonView::Object(
            json::fields2(
                json::fv("transition_id"@, JsonView::Text(transition)),
                json::fv("scope"@, scope),
            ),
        ),
    )
}

pub open spec fn deferral(claim: Seq<char>) -> EventView {
    event::document(
        "promotion_deferred"@,
        JsonView::Object(
            json::fields2(
                json::fv("claim_digest"@, JsonView::Text(claim)),
                json::fv("reason"@, JsonView::Text("CAS rebase exhausted (3 attempts)"@)),
            ),
        ),
    )
}

pub open spec fn orphans(scope: JsonView, digests: Seq<Seq<char>>) -> EventView {
    event::document(
        "memory_orphans_expected"@,
        JsonView::Object(
            json::fields2(
                json::fv("scope"@, scope),
                json::fv("digests"@, json::text_list(digests)),
            ),
        ),
    )
}

/// The events that a transition is to commit in its phase.
pub open spec fn due(t: TransitionView) -> Seq<EventView> {
    match t.phase {
        TransitionPhaseView::Origin => Seq::empty().push(
            event::document(t.request.origin_kind, t.request.origin_payload),
        ),
        TransitionPhaseView::Backlink { transition } => Seq::empty().push(
            backlink(transition, t.request.scope_document),
        ),
        TransitionPhaseView::Defer { installed } => Seq::empty().push(
            deferral(t.request.deferred_claim),
        ).push(orphans(t.request.scope_document, installed)),
        _ => Seq::empty(),
    }
}

/// The transition after the events of its phase were committed, the last at
/// `seq`.
pub open spec fn after_commit(t: TransitionView, seq: u64) -> TransitionView {
    match t.phase {
        TransitionPhaseView::Origin => TransitionView {
            phase: TransitionPhaseView::Propose {
                origin: seq,
                attempt: 0,
                expected: t.request.expected_root,
            },
            ..t
        },
        TransitionPhaseView::Backlink { transition } => TransitionView {
            phase: TransitionPhaseView::Approved { transition },
            ..t
        },
        TransitionPhaseView::Defer { .. } => TransitionView {
            phase: TransitionPhaseView::Deferred,
            ..t
        },
        _ => t,
    }
}

/// How an ended transition is reported.
pub open spec fn status(t: TransitionView) -> Seq<char> {
    if t.phase is Approved {
        "approved"@
    } else {
        "deferred"@
    }
}

/// The transition that was accepted.
pub open spec fn accepted(t: TransitionView) -> Option<Seq<char>> {
    match t.phase {
        TransitionPhaseView::Approved { transition } => Some(transition),
        _ => None,
    }
}

/// The event of a backlink.
pub fn backlink_event(transition: &Id128, scope: &Json) -> (r: Event)
    ensures
        r@ == backlink(transition@, scope@),
{
    let f = json::field(
        json::no_fields(),
        "transition_id",
        json::text_json(transition.text.as_str()),
    );
    event::document_event(
        "memory_transition_backlink",
        json::record(json::field(f, "scope", scope.copy())),
    )
}

impl Transition {
    /// Starts a transition.
    pub fn start(request: TransitionRequest) -> (r: Transition)
        ensures
            r@ == (TransitionView { request: request@, phase: TransitionPhaseView::Origin }),
            bounded(r@),
    {
        Transition { request, phase: TransitionPhase::Origin }
    }

    pub fn request(&self) -> (r: &TransitionRequest)
        ensures
            r@ == self@.request,
    {
        &self.request
    }

    /// What the host is to do next.
    pub fn phase(&self) -> (r: &TransitionPhase)
        ensures
            r@ == self@.phase,
    {
        &self.phase
    }

    /// The events to commit now, with the state head of
    /// [`Transition::state_head`].
    pub fn due_events(&self) -> (r: Vec<Event>)
        ensures
            value::views(r@) == due(self@),
    {
        let mut events: Vec<Event> = Vec::new();
        match &self.phase {
            TransitionPhase::Origin => events.push(
                event::document_event(
                    self.request.origin_kind.as_str(),
                    self.request.origin_payload.copy(),
                ),
            ),
            TransitionPhase::Backlink { transition } => events.push(
                backlink_event(transition, &self.request.scope_document),
            ),
            TransitionPhase::Defer { installed } => {
                let f = json::field(
                    json::no_fields(),
                    "claim_digest",
                    json::text_json(self.request.deferred_claim.text.as_str()),
                );
                let f = json::field(
                    f,
                    "reason",
                    json::text_json("CAS rebase exhausted (3 attempts)"),
                );
                events.push(event::document_event("promotion_deferred", json::record(f)));
                let f = json::field(
                    json::no_fields(),
                    "scope",
                    self.request.scope_document.copy(),
                );
                let f = json::field(f, "digests", json::digest_list(installed));
                events.push(event::document_event("memory_orphans_expected", json::record(f)));
            },
            _ => {},
        }
        events
    }

    /// The due events were committed, the last at `seq`.
    pub fn events_committed(&mut self, seq: u64)
        requires
            bounded(old(self)@),
        ensures
            final(self)@ == after_commit(old(self)@, seq),
            bounded(final(self)@),
    {
        let next = match &self.phase {
            TransitionPhase::Origin => TransitionPhase::Propose {
                origin: seq,
                attempt: 0,
                expected: value::copy_opt(&self.request.expected_root),
            },
            TransitionPhase::Backlink { transition } => TransitionPhase::Approved {
                transition: transition.copy(),
            },
            TransitionPhase::Defer { .. } => TransitionPhase::Deferred,
            _ => return ,
        };
        self.phase = next;
    }

    /// The proposal was answered.
    pub fn proposal_answered(&mut self, outcome: Proposed)
        requires
            bounded(old(self)@),
            old(self)@.phase is Propose,
        ensures
            final(self)@ == after_proposal(old(self)@, outcome),
            bounded(final(self)@),
    {
        let (origin, attempt) = match &self.phase {
            TransitionPhase::Propose { origin, attempt, .. } => (*origin, *attempt),
            _ => return ,
        };
        match outcome {
            Proposed::Committed { transition } => {
                self.phase = TransitionPhase::Backlink { transition };
            },
            Proposed::Lost { actual, installed } => {
                if attempt + 1 < MAX_ATTEMPTS {
                    self.phase = TransitionPhase::Propose {
                        origin,
                        attempt: attempt + 1,
                        expected: actual,
                    };
                } else {
                    self.phase = TransitionPhase::Defer { installed };
                }
            },
        }
    }

    /// The status of an ended transition, and the transition that was
    /// accepted.
    pub fn result(&self) -> (r: (String, Option<Id128>))
        ensures
            r.0@ == status(self@),
            value::opt_view(r.1) == accepted(self@),
    {
        match &self.phase {
            TransitionPhase::Approved { transition } => (
                "approved".to_owned(),
                Some(transition.copy()),
            ),
            _ => ("deferred".to_owned(), None),
        }
    }
}

// ---------- what is proposed ----------

/// The root that a proposal makes, on the root it expects.
#[derive(Debug, Clone, PartialEq, Eq)]
pub struct RootManifest {
    pub parent: Option<Digest>,
    pub scope: MemoryScope,
    pub added_claims: Vec<Digest>,
    pub added_edges: Vec<Digest>,
    pub retracted: Vec<Digest>,
    pub transition_id: Id128,
}

pub struct RootManifestView {
    pub parent: Option<Seq<char>>,
    pub scope: MemoryScopeView,
    pub added_claims: Seq<Seq<char>>,
    pub added_edges: Seq<Seq<char>>,
    pub retracted: Seq<Seq<char>>,
    pub transition_id: Seq<char>,
}

impl View for RootManifest {
    type V = RootManifestView;

    open spec fn view(&self) -> RootManifestView {
        RootManifestView {
            parent: value::opt_view(self.parent),
            scope: self.scope@,
            added_claims: value::views(self.added_claims@),
            added_edges: value::views(self.added_edges@),
            retracted: value::views(self.retracted@),
            transition_id: self.transition_id@,
        }
    }
}

/// What makes two proposals the same change.
#[derive(Debug, Clone, PartialEq, Eq)]
pub struct IdempotencyKey {
    pub session: Id128,
    pub event: u64,
    pub decision: Digest,
}

pub struct IdempotencyKeyView {
    pub session: Seq<char>,
    pub event: u64,
    pub decision: Seq<char>,
}

impl View for IdempotencyKey {
    type V = IdempotencyKeyView;

    open spec fn view(&self) -> IdempotencyKeyView {
        IdempotencyKeyView {
            session: self.session@,
            event: self.event,
            decision: self.decision@,
        }
    }
}

/// A proposed transition: from the root it expects to the root it makes.
#[derive(Debug, Clone, PartialEq, Eq)]
pub struct MemoryTransition {
    pub transition_id: Id128,
    pub scope: MemoryScope,
    pub kind: TransitionKind,
    pub expected_old_root: Option<Digest>,
    pub accepted_new_root: Digest,
    pub origin_session: Id128,
    pub origin_event: u64,
    pub origin_kind: String,
    pub decision_principal: Principal,
    pub decision_digest: Digest,
    pub idempotency_key: IdempotencyKey,
}

pub struct MemoryTransitionView {
    pub transition_id: Seq<char>,
    pub scope: MemoryScopeView,
    pub kind: TransitionKind,
    pub expected_old_root: Option<Seq<char>>,
    pub accepted_new_root: Seq<char>,
    pub origin_session: Seq<char>,
    pub origin_event: u64,
    pub origin_kind: Seq<char>,
    pub decision_principal: PrincipalView,
    pub decision_digest: Seq<char>,
    pub idempotency_key: IdempotencyKeyView,
}

impl View for MemoryTransition {
    type V = MemoryTransitionView;

    open spec fn view(&self) -> MemoryTransitionView {
        MemoryTransitionView {
            transition_id: self.transition_id@,
            scope: self.scope@,
            kind: self.kind,
            expected_old_root: value::opt_view(self.expected_old_root),
            accepted_new_root: self.accepted_new_root@,
            origin_session: self.origin_session@,
            origin_event: self.origin_event,
            origin_kind: self.origin_kind@,
            decision_principal: self.decision_principal@,
            decision_digest: self.decision_digest@,
            idempotency_key: self.idempotency_key@,
        }
    }
}

/// The root that a transition proposes in its phase.
pub open spec fn proposed_root(t: TransitionView, id: Seq<char>) -> RootManifestView {
    RootManifestView {
        parent: t.phase->expected,
        scope: t.request.scope,
        added_claims: t.request.added_claims,
        added_edges: t.request.added_edges,
        retracted: t.request.retracted,
        transition_id: id,
    }
}

/// What a transition proposes in its phase, to the root `new_root`.
pub open spec fn proposal(
    t: TransitionView,
    session: Seq<char>,
    principal: PrincipalView,
    id: Seq<char>,
    new_root: Seq<char>,
) -> MemoryTransitionView {
    MemoryTransitionView {
        transition_id: id,
        scope: t.request.scope,
        kind: t.request.kind,
        expected_old_root: t.phase->expected,
        accepted_new_root: new_root,
        origin_session: session,
        origin_event: t.phase->origin,
        origin_kind: t.request.origin_kind,
        decision_principal: principal,
        decision_digest: t.request.decision_digest,
        idempotency_key: IdempotencyKeyView {
            session,
            event: t.phase->origin,
            decision: t.request.decision_digest,
        },
    }
}

impl Transition {
    /// The root to propose now, under a fresh transition id.
    pub fn manifest(&self, transition_id: &Id128) -> (r: RootManifest)
        requires
            self@.phase is Propose,
        ensures
            r@ == proposed_root(self@, transition_id@),
    {
        let parent = match &self.phase {
            TransitionPhase::Propose { expected, .. } => value::copy_opt(expected),
            _ => None,
        };
        RootManifest {
            parent,
            scope: self.request.scope.copy(),
            added_claims: value::copy_vec(&self.request.added_claims),
            added_edges: value::copy_vec(&self.request.added_edges),
            retracted: value::copy_vec(&self.request.retracted),
            transition_id: transition_id.copy(),
        }
    }

    /// The transition to propose now; `new_root` is the digest of its
    /// manifest.
    pub fn proposal(
        &self,
        session: &Id128,
        principal: &Principal,
        transition_id: &Id128,
        new_root: &Digest,
    ) -> (r: MemoryTransition)
        requires
            self@.phase is Propose,
        ensures
            r@ == proposal(self@, session@, principal@, transition_id@, new_root@),
    {
        let (origin, expected) = match &self.phase {
            TransitionPhase::Propose { origin, expected, .. } => (
                *origin,
                value::copy_opt(expected),
            ),
            _ => (0u64, None),
        };
        MemoryTransition {
            transition_id: transition_id.copy(),
            scope: self.request.scope.copy(),
            kind: self.request.kind,
            expected_old_root: expected,
            accepted_new_root: new_root.copy(),
            origin_session: session.copy(),
            origin_event: origin,
            origin_kind: self.request.origin_kind.clone(),
            decision_principal: principal.copy(),
            decision_digest: self.request.decision_digest.copy(),
            idempotency_key: IdempotencyKey {
                session: session.copy(),
                event: origin,
                decision: self.request.decision_digest.copy(),
            },
        }
    }

    /// The state head that the due events are committed with: a backlink is a
    /// change of state, for it follows a root that moved.
    pub fn state_head(&self, composition: &Digest) -> (r: Option<Digest>)
        ensures
            value::opt_view(r) == (if self@.phase is Backlink {
                Some(composition@)
            } else {
                None
            }),
    {
        match &self.phase {
            TransitionPhase::Backlink { .. } => Some(composition.copy()),
            _ => None,
        }
    }
}

// ---------- laws ----------

/// The phases that proposals lead through, given their answers.
pub open spec fn tried(t: TransitionView, answers: Seq<Proposed>) -> TransitionView
    decreases answers.len(),
{
    if answers.len() == 0 || !(t.phase is Propose) {
        t
    } else {
        tried(after_proposal(t, answers[0]), answers.drop_first())
    }
}

/// Three lost races defer the change; one that is won before that commits it.
pub proof fn law_rebase_is_bounded(t: TransitionView, seq: u64, answers: Seq<Proposed>)
    requires
        t.phase is Origin,
        answers.len() >= MAX_ATTEMPTS,
    ensures
        ({
            let end = tried(after_commit(t, seq), answers);
            &&& end.phase is Backlink || end.phase is Defer
            &&& end.phase is Defer <==> (answers[0] is Lost && answers[1] is Lost && answers[2]
                is Lost)
        }),
{
    reveal_with_fuel(tried, 5);
    let a = after_commit(t, seq);
    let rest = answers.drop_first();
    assert(rest[0] == answers[1]);
    assert(rest.drop_first()[0] == answers[2]);
}

/// Each retry expects the root that the race was lost to.
pub proof fn law_retry_expects_the_actual_root(
    t: TransitionView,
    actual: Option<Digest>,
    installed: Vec<Digest>,
)
    requires
        t.phase is Propose,
    ensures
        after_proposal(t, Proposed::Lost { actual, installed }).phase
            matches TransitionPhaseView::Propose { expected, origin, .. } ==> expected
            == value::opt_view(actual) && origin == t.phase->origin,
{
}

/// A retry is the same change: whatever root it is rebased on, its key stays
/// the one of the event it originates in.
pub proof fn law_retries_keep_their_key(
    t: TransitionView,
    actual: Option<Digest>,
    installed: Vec<Digest>,
    session: Seq<char>,
    principal: PrincipalView,
    ids: (Seq<char>, Seq<char>),
    roots: (Seq<char>, Seq<char>),
)
    requires
        t.phase is Propose,
        after_proposal(t, Proposed::Lost { actual, installed }).phase is Propose,
    ensures
        ({
            let next = after_proposal(t, Proposed::Lost { actual, installed });
            let first = proposal(t, session, principal, ids.0, roots.0);
            let second = proposal(next, session, principal, ids.1, roots.1);
            &&& second.idempotency_key == first.idempotency_key
            &&& second.expected_old_root == value::opt_view(actual)
            &&& second.expected_old_root == proposed_root(next, ids.1).parent
        }),
{
}

/// A transition commits its origin, proposes from the root that it expects, and
/// links back to what was accepted or records that it was deferred, with what was
/// installed in vain. It is reported as approved exactly if it was accepted.
pub proof fn law_transitions_run_their_course(
    t: TransitionView,
    seq: u64,
    accepted_id: Id128,
)
    ensures
        t.phase is Origin ==> due(t).len() == 1 && due(t)[0].kind == t.request.origin_kind
            && due(t)[0].payload == event::PayloadView::Document(t.request.origin_payload),
        t.phase is Origin ==> (
        after_commit(t, seq).phase matches TransitionPhaseView::Propose {
            origin,
            attempt,
            expected,
        } && origin == seq && attempt == 0 && expected == t.request.expected_root),
        t.phase is Propose ==> due(t).len() == 0,
        t.phase is Propose ==> (after_proposal(
            t,
            Proposed::Committed { transition: accepted_id },
        ).phase matches TransitionPhaseView::Backlink { transition } && transition
            == accepted_id@),
        t.phase matches TransitionPhaseView::Backlink { transition } ==> due(t) == seq![
            backlink(transition, t.request.scope_document),
        ] && after_commit(t, seq).phase == (TransitionPhaseView::Approved { transition }),
        t.phase matches TransitionPhaseView::Defer { installed } ==> due(t) == seq![
            deferral(t.request.deferred_claim),
            orphans(t.request.scope_document, installed),
        ] && after_commit(t, seq).phase is Deferred,
        t.phase matches TransitionPhaseView::Approved { transition } ==> status(t) == "approved"@
            && accepted(t) == Some(transition),
        t.phase is Deferred ==> status(t) == "deferred"@ && accepted(t) is None,
        after_commit(t, seq).request == t.request,
{
    if t.phase is Backlink {
        assert(due(t) =~= seq![backlink(t.phase->Backlink_transition, t.request.scope_document)]);
    }
    if t.phase is Defer {
        assert(due(t) =~= seq![
            deferral(t.request.deferred_claim),
            orphans(t.request.scope_document, t.phase->installed),
        ]);
    }
}

/// What is proposed is what was requested: the claims, edges and retractions on
/// top of the expected root, in the scope, by the session, the principal and the
/// decision; it is keyed by the session, the origin and the decision, so that
/// different changes have different keys.
pub proof fn law_proposals_carry_their_request(
    t: TransitionView,
    session: Seq<char>,
    principal: PrincipalView,
    id: Seq<char>,
    new_root: Seq<char>,
)
    requires
        t.phase is Propose,
    ensures
        ({
            let m = proposed_root(t, id);
            let p = proposal(t, session, principal, id, new_root);
            &&& m.parent == t.phase->expected
            &&& m.scope == t.request.scope
            &&& m.added_claims == t.request.added_claims
            &&& m.added_edges == t.request.added_edges
            &&& m.retracted == t.request.retracted
            &&& m.transition_id == id
            &&& p.transition_id == id
            &&& p.scope == t.request.scope
            &&& p.kind == t.request.kind
            &&& p.expected_old_root == t.phase->expected
            &&& p.accepted_new_root == new_root
            &&& p.origin_session == session
            &&& p.origin_event == t.phase->origin
            &&& p.origin_kind == t.request.origin_kind
            &&& p.decision_principal == principal
            &&& p.decision_digest == t.request.decision_digest
            &&& p.idempotency_key.session == session
            &&& p.idempotency_key.event == t.phase->origin
            &&& p.idempotency_key.decision == t.request.decision_digest
        }),
{
}

/// A transition is proposed three times at most.
pub proof fn law_transitions_are_tried_three_times(t: TransitionView)
    requires
        bounded(t),
    ensures
        t.phase matches TransitionPhaseView::Propose { attempt, .. } ==> attempt < 3,
{
}

} // verus!
