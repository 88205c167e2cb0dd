//! A tool call from its intent to its outcome: hooks, the committed intent,
//! the approval gate, the checks at dispatch, and the retention gate.
use vstd::prelude::*;
use vstd::string::*;
use crate::approvals;
use crate::approvals::{ApprovalQueue, ApprovalQueueView, ParkedApproval, ParkedApprovalView};
use crate::contribution;
use crate::contribution::HookKind;
use crate::event;
use crate::event::{Event, EventView, Payload, PayloadView};
use crate::hooks;
use crate::hooks::{Decision, HookEvaluation, HookEvaluationView};
use crate::ids::Digest;
use crate::json;
use crate::json::{Json, JsonView};
use crate::session_error;
use crate::session_error::SessionError;
use crate::text;
use crate::tools;
use crate::tools::{
    Classification, ClassificationView, HookDenier, HookDenierView, Principal, Route, ToolIntent,
    ToolIntentView, ToolOutcome, ToolOutcomeView,
};
use crate::value;
use crate::value::Value;

verus! {

broadcast use value::group_views;

/// Where a call stands: what the host is to do next.
#[derive(Debug, Clone, PartialEq, Eq)]
pub enum Phase {
    /// Evaluate the intent hooks.
    Hooks,
    /// Commit the intent.
    Commit { denial: Option<HookDenier>, refused: bool },
    /// Commit this outcome: a hook denied the call.
    Deny(ToolOutcome),
    /// Ask the broker whether the call needs an approval.
    Gate,
    /// Make the committed intent durable.
    Flush,
    /// Ask the broker again, now that the call is to run.
    Recheck,
    /// Run the tool.
    Run(Route),
    Done(ToolOutcome),
}

pub enum PhaseView {
    Hooks,
    Commit { denial: Option<HookDenierView>, refused: bool },
    Deny(ToolOutcomeView),
    Gate,
    Flush,
    Recheck,
    Run(Route),
    Done(ToolOutcomeView),
}

impl View for Phase {
    type V = PhaseView;

    open spec fn view(&self) -> PhaseView {
        match *self {
            Phase::Hooks => PhaseView::Hooks,
            Phase::Commit { denial, refused } => PhaseView::Commit { denial: value::opt_view(denial), refused },
            Phase::Deny(x) => PhaseView::Deny(x@),
            Phase::Gate => PhaseView::Gate,
            Phase::Flush => PhaseView::Flush,
            Phase::Recheck => PhaseView::Recheck,
            Phase::Run(x) => PhaseView::Run(x),
            Phase::Done(x) => PhaseView::Done(x@),
        }
    }
}

/// A call under way.
#[derive(Debug, Clone, PartialEq, Eq)]
pub struct ToolCall {
    intent: ToolIntent,
    phase: Phase,
    flushed: bool,
    granted: bool,
    needs_approval: bool,
}

pub struct ToolCallView {
    pub intent: ToolIntentView,
    pub phase: PhaseView,
    /// The intent was made durable.
    pub flushed: bool,
    /// The broker granted the call at dispatch.
    pub granted: bool,
    /// The broker asked for an approval at dispatch.
    pub needs_approval: bool,
}

impl View for ToolCall {
    type V = ToolCallView;

    closed spec fn view(&self) -> ToolCallView {
        ToolCallView {
            intent: self.intent@,
            phase: self.phase@,
            flushed: self.flushed,
            granted: self.granted,
            needs_approval: self.needs_approval,
        }
    }
}

/// What holds of a call in every phase: it is past the commit only with a
/// committed intent, and it runs only when it was granted, with an approval
/// where one is needed, and made durable where it is consequential.
pub open spec fn sound(c: ToolCallView) -> bool {
    &&& !(c.phase is Hooks || c.phase is Commit) ==> c.intent.intent_event is Some
    &&& c.phase is Run ==> {
        &&& c.granted
        &&& c.needs_approval ==> c.intent.approval is Some
        &&& tools::is_consequential(c.intent.tool) ==> c.flushed
    }
    &&& c.phase is Recheck ==> (tools::is_consequential(c.intent.tool) ==> c.flushed)
}

// ---------- the intent ----------

/// The call with nothing asked yet.
pub open spec fn drafted(
    call_id: Seq<char>,
    run_id: Seq<char>,
    principal: tools::PrincipalView,
    tool: Seq<char>,
    args: JsonView,
    origin: Option<Seq<char>>,
) -> ToolCallView {
    ToolCallView {
        intent: ToolIntentView {
            call_id,
            run_id,
            principal,
            tool,
            args,
            approval: None,
            origin_snapshot: origin,
            intent_event: None,
            annotations: Seq::empty(),
        },
        phase: PhaseView::Hooks,
        flushed: false,
        granted: false,
        needs_approval: false,
    }
}

/// What the intent hooks are shown.
pub open spec fn hook_context(intent: ToolIntentView) -> JsonView {
    JsonView::Object(
        json::fields3(
            json::fv("hook"@, JsonView::Text(contribution::hook_name(HookKind::OnToolIntent))),
            json::fv("tool"@, JsonView::Text(intent.tool)),
            json::fv("args"@, intent.args),
        ),
    )
}

/// The denier as it is recorded.
pub open spec fn denier_record(
    e: HookEvaluationView,
    decision_digest: Seq<char>,
) -> Option<HookDenierView> {
    match e.denier {
        Some(b) => Some(
            HookDenierView {
                module_id: b.module_id,
                package_digest: b.package_digest,
                hook: contribution::hook_name(b.hook),
                decision_digest,
            },
        ),
        None => None,
    }
}

/// The call after its hooks: the annotations ride on the intent.
pub open spec fn judged(
    c: ToolCallView,
    e: HookEvaluationView,
    decision_digest: Seq<char>,
) -> ToolCallView {
    ToolCallView {
        intent: ToolIntentView { annotations: e.annotations, ..c.intent },
        phase: PhaseView::Commit {
            denial: denier_record(e, decision_digest),
            refused: e.decision is Deny,
        },
        ..c
    }
}

/// The outcome of a call that a hook denied.
pub open spec fn denied(
    intent: ToolIntentView,
    now: Option<Seq<char>>,
    denial: Option<HookDenierView>,
) -> ToolOutcomeView {
    ToolOutcomeView {
        hook_denied: denial,
        ..tools::bare(intent, now, ClassificationView::Denied(hooks::denied_reason()))
    }
}

/// The call on its way to the dispatch.
pub open spec fn dispatching(c: ToolCallView) -> ToolCallView {
    ToolCallView {
        phase: if tools::is_consequential(c.intent.tool) && !c.flushed {
            PhaseView::Flush
        } else {
            PhaseView::Recheck
        },
        ..c
    }
}

/// The call after its intent was committed at `seq`. A denied call ends
/// here: the broker is never asked. No approvals are asked for where the
/// queue keeps none.
pub open spec fn committed(
    c: ToolCallView,
    seq: u64,
    approvals: bool,
    now: Option<Seq<char>>,
) -> ToolCallView {
    let intent = ToolIntentView { intent_event: Some(seq), ..c.intent };
    let c2 = ToolCallView { intent, ..c };
    match c.phase {
        PhaseView::Commit { denial, refused } => if refused {
            ToolCallView { phase: PhaseView::Deny(denied(intent, now, denial)), ..c2 }
        } else if approvals {
            ToolCallView { phase: PhaseView::Gate, ..c2 }
        } else {
            dispatching(c2)
        },
        _ => c2,
    }
}

/// What the broker says of a call: whether it needs an approval, or why it is
/// refused; with the digest of the exact intent and the versions in force.
#[derive(Debug, Clone, PartialEq, Eq)]
pub struct Permission {
    pub digest: Digest,
    pub policy_version: u64,
    pub grants_version: u64,
}

pub struct PermissionView {
    pub digest: Seq<char>,
    pub policy_version: u64,
    pub grants_version: u64,
}

impl View for Permission {
    type V = PermissionView;

    open spec fn view(&self) -> PermissionView {
        PermissionView {
            digest: self.digest@,
            policy_version: self.policy_version,
            grants_version: self.grants_version,
        }
    }
}

/// The call after the approval gate. A gated call parks and waits for the
/// user: it never goes on to the dispatch by itself.
pub open spec fn gated(
    c: ToolCallView,
    verdict: Result<bool, String>,
    permission: PermissionView,
    now: Option<Seq<char>>,
) -> ToolCallView {
    match verdict {
        Ok(required) => if required {
            ToolCallView {
                phase: PhaseView::Done(
                    tools::interrupted(c.intent, now, tools::parked_reason(permission.digest)),
                ),
                ..c
            }
        } else {
            dispatching(ToolCallView { intent: ToolIntentView { approval: None, ..c.intent }, ..c })
        },
        Err(e) => ToolCallView {
            phase: PhaseView::Done(
                tools::interrupted(c.intent, now, "approval denied: "@ + e@),
            ),
            ..c
        },
    }
}

/// The queue after the approval gate.
pub open spec fn queue_after_gate(
    q: ApprovalQueueView,
    intent: ToolIntentView,
    verdict: Result<bool, String>,
    permission: PermissionView,
) -> ApprovalQueueView {
    if verdict == Ok::<bool, String>(true) {
        approvals::with_parked(
            q,
            ParkedApprovalView {
                intent,
                digest: permission.digest,
                principal: intent.principal,
                policy_version: permission.policy_version,
                grants_version: permission.grants_version,
            },
        )
    } else {
        q
    }
}

/// The call after the checks at dispatch. `valid` says whether the parked
/// approval still validates.
pub open spec fn rechecked(
    c: ToolCallView,
    q: ApprovalQueueView,
    verdict: Result<bool, String>,
    valid: bool,
    now: Option<Seq<char>>,
) -> ToolCallView {
    match verdict {
        Err(e) => ToolCallView {
            phase: PhaseView::Done(
                tools::interrupted(c.intent, now, "dispatch recheck: "@ + e@),
            ),
            ..c
        },
        Ok(required) => if required && c.intent.approval is None {
            ToolCallView {
                phase: PhaseView::Done(
                    tools::interrupted(
                        c.intent,
                        now,
                        "approval required but missing at dispatch"@,
                    ),
                ),
                ..c
            }
        } else if c.intent.approval is Some && !(approvals::parks(q, c.intent.approval->0)
            && valid) {
            ToolCallView {
                phase: PhaseView::Done(
                    tools::interrupted(c.intent, now, "approval revoked or stale at dispatch"@),
                ),
                ..c
            }
        } else {
            ToolCallView {
                phase: PhaseView::Run(tools::route(c.intent.tool)),
                granted: true,
                needs_approval: required,
                ..c
            }
        },
    }
}

impl ToolCall {
    /// Starts a call. A tool that is not registered is refused.
    pub fn start(
        known: bool,
        call_id: String,
        run_id: String,
        principal: Principal,
        tool: String,
        args: Json,
        origin: Option<Digest>,
    ) -> (r: Result<ToolCall, SessionError>)
        ensures
            match r {
                Ok(c) => known && c@ == drafted(
                    call_id@,
                    run_id@,
                    principal@,
                    tool@,
                    args@,
                    value::opt_view(origin),
                ) && sound(c@),
                Err(e) => !known && e@ == session_error::invalid("unknown tool "@ + tool@),
            },
    {
        if !known {
            return Err(SessionError::InvalidInput(text::cat2("unknown tool ", tool.as_str())));
        }
        Ok(
            ToolCall {
                intent: ToolIntent {
                    call_id,
                    run_id,
                    principal,
                    tool,
                    args,
                    approval: None,
                    origin_snapshot: origin,
                    intent_event: None,
                    annotations: Vec::new(),
                },
                phase: Phase::Hooks,
                flushed: false,
                granted: false,
                needs_approval: false,
            },
        )
    }

    /// Takes up a call whose approval was verified: it goes to the dispatch.
    pub fn resume(intent: ToolIntent) -> (r: ToolCall)
        requires
            intent.intent_event is Some,
        ensures
            r@ == dispatching(
                ToolCallView {
                    intent: intent@,
                    phase: PhaseView::Gate,
                    flushed: false,
                    granted: false,
                    needs_approval: false,
                },
            ),
            sound(r@),
    {
        let mut c = ToolCall {
            intent,
            phase: Phase::Gate,
            flushed: false,
            granted: false,
            needs_approval: false,
        };
        c.to_dispatch();
        c
    }

    pub fn intent(&self) -> (r: &ToolIntent)
        ensures
            r@ == self@.intent,
    {
        &self.intent
    }

    /// What the host is to do next.
    pub fn phase(&self) -> (r: &Phase)
        ensures
            r@ == self@.phase,
    {
        &self.phase
    }

    /// What the intent hooks are shown.
    pub fn hook_context(&self) -> (r: Json)
        ensures
            r@ == hook_context(self@.intent),
    {
        let f = json::field(json::no_fields(), "hook", json::text_json("on_tool_intent"));
        let f = json::field(f, "tool", json::text_json(self.intent.tool.as_str()));
        json::record(json::field(f, "args", self.intent.args.copy()))
    }

    /// The event that commits the intent.
    pub fn intent_event(&self) -> (r: Event)
        ensures
            r@ == (EventView {
                kind: "tool_intent"@,
                payload: PayloadView::Intent(self@.intent),
                refs: Seq::empty(),
            }),
    {
        event::plain_event("tool_intent", Payload::Intent(self.intent.copy()))
    }

    fn to_dispatch(&mut self)
        ensures
            final(self)@ == dispatching(old(self)@),
    {
        if tools::consequential_tool(self.intent.tool.as_str()) && !self.flushed {
            self.phase = Phase::Flush;
        } else {
            self.phase = Phase::Recheck;
        }
    }

    /// The hooks were evaluated.
    pub fn hooks_evaluated(&mut self, e: &HookEvaluation, decision_digest: &Digest)
        requires
            sound(old(self)@),
            old(self)@.phase is Hooks,
        ensures
            final(self)@ == judged(old(self)@, e@, decision_digest@),
            sound(final(self)@),
    {
        self.intent.annotations = value::copy_vec(&e.annotations);
        let denial = match &e.denier {
            Some(b) => Some(
                HookDenier {
                    module_id: b.module_id.text.clone(),
                    package_digest: b.package_digest.text.clone(),
                    hook: b.hook.as_str().to_owned(),
                    decision_digest: decision_digest.text.clone(),
                },
            ),
            None => None,
        };
        let refused = match e.decision {
            Decision::Deny { .. } => true,
            Decision::Continue => false,
        };
        self.phase = Phase::Commit { denial, refused };
    }

    /// The intent was committed at `seq`.
    pub fn intent_committed(&mut self, seq: u64, approvals: bool, now: &Option<Digest>)
        requires
            sound(old(self)@),
            old(self)@.phase is Commit,
        ensures
            final(self)@ == committed(old(self)@, seq, approvals, value::opt_view(*now)),
            sound(final(self)@),
    {
        self.intent.intent_event = Some(seq);
        let mut next: Option<Phase> = None;
        if let Phase::Commit { denial, refused } = &self.phase {
            if *refused {
                let mut outcome = tools::bare_outcome(
                    &self.intent,
                    now,
                    Classification::Denied(hooks::denied_reason_text()),
                );
                outcome.hook_denied = value::copy_opt(denial);
                next = Some(Phase::Deny(outcome));
            } else if approvals {
                next = Some(Phase::Gate);
            }
        }
        match next {
            Some(phase) => self.phase = phase,
            None => self.to_dispatch(),
        }
    }

    /// The denied outcome was committed.
    pub fn denial_committed(&mut self)
        requires
            sound(old(self)@),
            old(self)@.phase is Deny,
        ensures
            final(self)@ == (ToolCallView {
                phase: PhaseView::Done(old(self)@.phase->Deny_0),
                ..old(self)@
            }),
            sound(final(self)@),
    {
        let outcome = match &self.phase {
            Phase::Deny(outcome) => outcome.copy(),
            _ => tools::bare_outcome(&self.intent, &None, Classification::Normal),
        };
        self.phase = Phase::Done(outcome);
    }

    /// The broker spoke at the approval gate.
    pub fn gate_checked(
        &mut self,
        queue: &mut ApprovalQueue,
        verdict: Result<bool, String>,
        permission: Permission,
        now: &Option<Digest>,
    )
        requires
            sound(old(self)@),
            old(self)@.phase is Gate,
            approvals::queue_ok(old(queue)@),
        ensures
            final(self)@ == gated(old(self)@, verdict, permission@, value::opt_view(*now)),
            sound(final(self)@),
            final(queue)@ == queue_after_gate(
                old(queue)@,
                old(self)@.intent,
                verdict,
                permission@,
            ),
            approvals::queue_ok(final(queue)@),
    {
        match verdict {
            Ok(required) => {
                if required {
                    let outcome = tools::outcome_parked(&self.intent, now, &permission.digest);
                    queue.park(
                        ParkedApproval {
                            intent: self.intent.copy(),
                            digest: permission.digest,
                            principal: self.intent.principal.copy(),
                            policy_version: permission.policy_version,
                            grants_version: permission.grants_version,
                        },
                    );
                    self.phase = Phase::Done(outcome);
                } else {
                    self.intent.approval = None;
                    self.to_dispatch();
                }
            },
            Err(e) => {
                let outcome = tools::outcome_interrupted(
                    &self.intent,
                    now,
                    text::cat2("approval denied: ", e.as_str()),
                );
                self.phase = Phase::Done(outcome);
            },
        }
    }

    /// The committed intent is durable.
    pub fn intent_flushed(&mut self)
        requires
            sound(old(self)@),
            old(self)@.phase is Flush,
        ensures
            final(self)@ == (ToolCallView {
                phase: PhaseView::Recheck,
                flushed: true,
                ..old(self)@
            }),
            sound(final(self)@),
    {
        self.flushed = true;
        self.phase = Phase::Recheck;
    }

    /// The broker spoke at dispatch.
    pub fn dispatch_checked(
        &mut self,
        queue: &ApprovalQueue,
        verdict: Result<bool, String>,
        valid: bool,
        now: &Option<Digest>,
    )
        requires
            sound(old(self)@),
            old(self)@.phase is Recheck,
        ensures
            final(self)@ == rechecked(
                old(self)@,
                queue@,
                verdict,
                valid,
                value::opt_view(*now),
            ),
            sound(final(self)@),
    {
        let required = match verdict {
            Err(e) => {
                let outcome = tools::outcome_interrupted(
                    &self.intent,
                    now,
                    text::cat2("dispatch recheck: ", e.as_str()),
                );
                self.phase = Phase::Done(outcome);
                return ;
            },
            Ok(required) => required,
        };
        let stands = match &self.intent.approval {
            Some(d) => queue.contains(d) && valid,
            None => true,
        };
        let missing = match &self.intent.approval {
            Some(_) => false,
            None => required,
        };
        if missing {
            let outcome = tools::outcome_interrupted(
                &self.intent,
                now,
                "approval required but missing at dispatch".to_owned(),
            );
            self.phase = Phase::Done(outcome);
        } else if !stands {
            let outcome = tools::outcome_interrupted(
                &self.intent,
                now,
                "approval revoked or stale at dispatch".to_owned(),
            );
            self.phase = Phase::Done(outcome);
        } else {
            self.phase = Phase::Run(tools::route_of(self.intent.tool.as_str()));
            self.granted = true;
            self.needs_approval = required;
        }
    }

    /// A native tool ran: its result, or why it failed.
    pub fn native_ran(&mut self, result: Result<Json, String>, now: &Option<Digest>)
        requires
            sound(old(self)@),
            old(self)@.phase == PhaseView::Run(Route::Native),
        ensures
            final(self)@ == (ToolCallView {
                phase: PhaseView::Done(
                    match result {
                        Ok(v) => tools::finished(old(self)@.intent, value::opt_view(*now), v@),
                        Err(e) => tools::failed(old(self)@.intent, value::opt_view(*now), e@),
                    },
                ),
                ..old(self)@
            }),
            sound(final(self)@),
    {
        let outcome = match result {
            Ok(v) => tools::outcome_finished(&self.intent, now, v),
            Err(e) => tools::outcome_failed(&self.intent, now, e),
        };
        self.phase = Phase::Done(outcome);
    }

    /// A tool of the session's own ran to `outcome`.
    pub fn session_tool_ran(&mut self, outcome: ToolOutcome)
        requires
            sound(old(self)@),
            old(self)@.phase is Run,
        ensures
            final(self)@ == (ToolCallView {
                phase: PhaseView::Done(outcome@),
                ..old(self)@
            }),
            sound(final(self)@),
    {
        self.phase = Phase::Done(outcome);
    }
}

// ---------- the retention gate ----------

/// What a boundary record is about.
#[derive(Debug, Clone, Copy, PartialEq, Eq, Structural)]
pub enum BoundaryKind {
    NonResumable,
    Rejected,
}

/// What the retention policy let go of.
#[derive(Debug, Clone, PartialEq, Eq)]
pub struct BoundaryFact {
    pub reason: Json,
    pub replay_relevant: bool,
    pub kind: BoundaryKind,
}

pub struct BoundaryFactView {
    pub reason: JsonView,
    pub replay_relevant: bool,
    pub kind: BoundaryKind,
}

impl View for BoundaryFact {
    type V = BoundaryFactView;

    open spec fn view(&self) -> BoundaryFactView {
        BoundaryFactView {
            reason: self.reason@,
            replay_relevant: self.replay_relevant,
            kind: self.kind,
        }
    }
}

pub open spec fn boundary_name(kind: BoundaryKind) -> Seq<char> {
    match kind {
        BoundaryKind::NonResumable => "non_resumable"@,
        BoundaryKind::Rejected => "rejected"@,
    }
}

pub open spec fn boundary_record(f: BoundaryFactView) -> EventView {
    event::document(
        "retention_boundary"@,
        JsonView::Object(
            json::fields3(
                json::fv("reason"@, f.reason),
                json::fv("replay_relevant"@, JsonView::Bool(f.replay_relevant)),
                json::fv("kind"@, JsonView::Text(boundary_name(f.kind))),
            ),
        ),
    )
}

/// The event of a retention boundary.
pub fn boundary_event(f: &BoundaryFact) -> (r: Event)
    ensures
        r@ == boundary_record(f@),
{
    let name = match f.kind {
        BoundaryKind::NonResumable => "non_resumable",
        BoundaryKind::Rejected => "rejected",
    };
    let d = json::field(json::no_fields(), "reason", f.reason.copy());
    let d = json::field(d, "replay_relevant", Json::Bool(f.replay_relevant));
    event::document_event(
        "retention_boundary",
        json::record(json::field(d, "kind", json::text_json(name))),
    )
}

/// What the retention policy did with a candidate.
#[derive(Debug, Clone, PartialEq, Eq)]
pub enum Admission {
    /// Stored as this text; `exact` unless bytes had to be replaced in it.
    Stored { text: String, exact: bool },
    Dropped,
    Unchanged,
}

/// Whether an outcome has a result that the policy is to decide on.
pub open spec fn is_candidate(o: ToolOutcomeView) -> bool {
    o.error is None && !(o.result is Null)
}

pub fn needs_admission(o: &ToolOutcome) -> (r: bool)
    ensures
        r == is_candidate(o@),
{
    match (&o.error, &o.result) {
        (Some(_), _) => false,
        (None, Json::Null) => false,
        (None, _) => true,
    }
}

/// The document that stored bytes hold, or their text where they hold none.
pub open spec fn stored_document(t: Seq<char>, exact: bool) -> JsonView {
    match json::parsed(t) {
        Some(v) => if exact {
            v
        } else {
            JsonView::Text(t)
        },
        None => JsonView::Text(t),
    }
}

/// The outcome as it is committed: exactly what the policy stored. A policy
/// that fails commits nothing of the result.
pub open spec fn admitted(
    o: ToolOutcomeView,
    admission: Result<Admission, String>,
) -> ToolOutcomeView {
    match admission {
        Ok(Admission::Stored { text, exact }) => ToolOutcomeView {
            result: stored_document(text@, exact),
            retained: Some(true),
            ..o
        },
        Ok(Admission::Dropped) => ToolOutcomeView {
            result: JsonView::Null,
            retained: Some(false),
            ..o
        },
        Ok(Admission::Unchanged) => o,
        Err(e) => ToolOutcomeView {
            result: JsonView::Null,
            retained: None,
            classification: ClassificationView::Interrupted(
                "retention gate failed closed: "@ + e@,
            ),
            ..o
        },
    }
}

fn retain(o: &ToolOutcome, admission: Result<Admission, String>) -> (r: ToolOutcome)
    ensures
        r@ == admitted(o@, admission),
{
    let mut out = o.copy();
    match admission {
        Ok(Admission::Stored { text, exact }) => {
            out.result = match json::read(text.as_str()) {
                Some(v) => if exact {
                    v
                } else {
                    Json::Text(text)
                },
                None => Json::Text(text),
            };
            out.retained = Some(true);
        },
        Ok(Admission::Dropped) => {
            out.result = Json::Null;
            out.retained = Some(false);
        },
        Ok(Admission::Unchanged) => {},
        Err(e) => {
            out.result = Json::Null;
            out.retained = None;
            out.classification = Classification::Interrupted(
                text::cat2("retention gate failed closed: ", e.as_str()),
            );
        },
    }
    out
}

/// The events that commit an outcome: the boundary first, where there is one.
pub open spec fn outcome_records(
    o: ToolOutcomeView,
    admission: Option<Result<Admission, String>>,
    boundary: Option<BoundaryFactView>,
) -> Seq<EventView> {
    let last = EventView {
        kind: "tool_outcome"@,
        payload: PayloadView::Outcome(
            match admission {
                Some(a) => if is_candidate(o) {
                    admitted(o, a)
                } else {
                    o
                },
                None => o,
            },
        ),
        refs: Seq::empty(),
    };
    match boundary {
        Some(f) => Seq::empty().push(boundary_record(f)).push(last),
        None => Seq::empty().push(last),
    }
}

/// The events that commit an outcome. `admission` is the policy's word on the
/// result: no result is committed without it, and an outcome that has none
/// needs none.
pub fn commit_tool_outcome(
    o: &ToolOutcome,
    admission: Option<Result<Admission, String>>,
    boundary: Option<BoundaryFact>,
) -> (r: Vec<Event>)
    requires
        is_candidate(o@) ==> admission is Some,
    ensures
        value::views(r@) == outcome_records(o@, admission, value::opt_view(boundary)),
{
    let mut events: Vec<Event> = Vec::new();
    if let Some(f) = &boundary {
        events.push(boundary_event(f));
    }
    let out = match admission {
        Some(a) => if needs_admission(o) {
            retain(o, a)
        } else {
            o.copy()
        },
        None => o.copy(),
    };
    events.push(event::plain_event("tool_outcome", Payload::Outcome(out)));
    events
}

// ---------- laws ----------

/// A call runs only when its intent is committed, the broker granted it, an
/// approval is there where one is needed, and a consequential call is durable.
pub proof fn law_nothing_runs_ungranted(c: ToolCallView)
    requires
        sound(c),
        c.phase is Run,
    ensures
        c.intent.intent_event is Some,
        c.granted,
        c.needs_approval ==> c.intent.approval is Some,
        tools::is_consequential(c.intent.tool) ==> c.flushed,
{
}

/// A call that a hook denied goes to no broker and no tool: its next phase is
/// the denial, then the end.
pub proof fn law_denied_calls_stop(
    c: ToolCallView,
    e: HookEvaluationView,
    decision_digest: Seq<char>,
    seq: u64,
    approvals: bool,
    now: Option<Seq<char>>,
)
    requires
        c.phase is Hooks,
        e.decision is Deny,
    ensures
        ({
            let after = committed(judged(c, e, decision_digest), seq, approvals, now);
            after.phase matches PhaseView::Deny(o) && o.classification is Denied
        }),
{
}

/// A call that needs an approval parks: it does not run in the same breath.
pub proof fn law_gated_calls_park(
    c: ToolCallView,
    q: ApprovalQueueView,
    permission: PermissionView,
    now: Option<Seq<char>>,
)
    requires
        sound(c),
        c.phase is Gate,
        approvals::queue_ok(q),
        q.bound > 0,
    ensures
        gated(c, Ok(true), permission, now).phase matches PhaseView::Done(o)
            && tools::awaits_approval(o) && o.classification == ClassificationView::Interrupted(
            tools::parked_reason(permission.digest),
        ),
        approvals::parks(queue_after_gate(q, c.intent, Ok(true), permission), permission.digest),
{
    let reason = tools::parked_reason(permission.digest);
    assert("awaiting approval"@ =~= reason.subrange(0, "awaiting approval"@.len() as int));
    let w = queue_after_gate(q, c.intent, Ok(true), permission).parked;
    approvals::lemma_place(w, permission.digest);
    assert(w[w.len() - 1].digest == permission.digest);
}

/// An approval that is no longer parked does not let a call run.
pub proof fn law_released_approvals_do_not_run(
    c: ToolCallView,
    q: ApprovalQueueView,
    verdict: Result<bool, String>,
    valid: bool,
    now: Option<Seq<char>>,
)
    requires
        c.phase is Recheck,
        c.intent.approval matches Some(d) && !approvals::parks(q, d),
    ensures
        rechecked(c, q, verdict, valid, now).phase is Done,
{
}

/// A retention policy that fails lets nothing of the result through.
pub proof fn law_retention_fails_closed(o: ToolOutcomeView, e: String)
    ensures
        admitted(o, Err(e)).result is Null,
        admitted(o, Err(e)).classification is Interrupted,
        admitted(o, Err(e)).retained is None,
{
}

/// A call starts with what it was asked: its tool, its arguments and whom it is
/// for; nothing is granted, approved or committed yet, and its hooks come first.
/// The hooks are asked before the intent is committed, and their annotations ride
/// on it.
pub proof fn law_calls_start_with_their_hooks(
    call_id: Seq<char>,
    run_id: Seq<char>,
    principal: tools::PrincipalView,
    tool: Seq<char>,
    args: JsonView,
    origin: Option<Seq<char>>,
    e: HookEvaluationView,
    decision_digest: Seq<char>,
)
    ensures
        ({
            let c = drafted(call_id, run_id, principal, tool, args, origin);
            let j = judged(c, e, decision_digest);
            &&& c.intent.call_id == call_id
            &&& c.intent.run_id == run_id
            &&& c.intent.principal == principal
            &&& c.intent.tool == tool
            &&& c.intent.args == args
            &&& c.intent.origin_snapshot == origin
            &&& c.intent.approval is None
            &&& c.intent.intent_event is None
            &&& c.intent.annotations.len() == 0
            &&& c.phase is Hooks
            &&& !c.granted && !c.flushed
            &&& j.intent.annotations == e.annotations
            &&& j.intent.tool == tool && j.intent.args == args && j.intent.call_id == call_id
            &&& j.phase is Commit
            &&& j.phase->refused <==> e.decision is Deny
            &&& e.denier matches Some(b) ==> (j.phase->denial matches Some(d) && d.module_id
                == b.module_id && d.package_digest == b.package_digest && d.hook
                == contribution::hook_name(b.hook) && d.decision_digest == decision_digest)
            &&& e.denier is None ==> j.phase->denial is None
        }),
{
}

/// A committed intent has its seq. A refused call ends with a denial that names
/// the denier; any other waits for its approval where approvals are asked for, else
/// goes to the dispatch, by way of a flush where it is consequential.
pub proof fn law_committed_calls_go_on(
    c: ToolCallView,
    seq: u64,
    approvals: bool,
    now: Option<Seq<char>>,
)
    requires
        c.phase is Commit,
    ensures
        ({
            let after = committed(c, seq, approvals, now);
            &&& after.intent == (ToolIntentView { intent_event: Some(seq), ..c.intent })
            &&& c.phase->refused ==> (after.phase matches PhaseView::Deny(o) && o.hook_denied
                == c.phase->denial && o.call_id == c.intent.call_id && o.tool == c.intent.tool
                && o.result is Null && o.classification == ClassificationView::Denied(
                "denied by hook"@,
            ))
            &&& !c.phase->refused && approvals ==> after.phase is Gate
            &&& !c.phase->refused && !approvals ==> (after.phase is Flush
                <==> tools::is_consequential(c.intent.tool) && !c.flushed)
            &&& !c.phase->refused && !approvals && !(after.phase is Flush)
                ==> after.phase is Recheck
            &&& after.granted == c.granted && after.flushed == c.flushed
        }),
{
}

/// A call goes on exactly if the broker asks for no approval, and then
/// without one; where it asks for one the exact intent is parked under its digest
/// and the versions that it was asked under.
pub proof fn law_gates_park_or_let_on(
    c: ToolCallView,
    q: ApprovalQueueView,
    verdict: Result<bool, String>,
    permission: PermissionView,
    now: Option<Seq<char>>,
)
    requires
        approvals::queue_ok(q),
    ensures
        ({
            let after = gated(c, verdict, permission, now);
            let queue = queue_after_gate(q, c.intent, verdict, permission);
            &&& verdict == Ok::<bool, String>(false) ==> (after.phase is Flush
                || after.phase is Recheck) && after.intent.approval is None && queue == q
            &&& verdict is Err ==> (after.phase matches PhaseView::Done(o) && o.classification
                == ClassificationView::Interrupted("approval denied: "@ + verdict->Err_0@))
                && queue == q
            &&& verdict == Ok::<bool, String>(true) ==> after.phase is Done && queue.bound
                == q.bound
            &&& verdict == Ok::<bool, String>(true) && q.bound > 0 ==> queue.parked.len() > 0 && {
                let p = queue.parked.last();
                &&& p.intent == c.intent
                &&& p.digest == permission.digest
                &&& p.principal == c.intent.principal
                &&& p.policy_version == permission.policy_version
                &&& p.grants_version == permission.grants_version
            }
        }),
{
}

/// A call runs exactly if the broker still grants it, an approval is there where
/// one is asked for, and an approval that it has is still parked and valid. It
/// runs where its name routes it.
pub proof fn law_dispatches_are_rechecked(
    c: ToolCallView,
    q: ApprovalQueueView,
    verdict: Result<bool, String>,
    valid: bool,
    now: Option<Seq<char>>,
)
    requires
        c.phase is Recheck,
    ensures
        ({
            let after = rechecked(c, q, verdict, valid, now);
            &&& after.phase is Run <==> (verdict matches Ok(required) && (required
                ==> c.intent.approval is Some) && (c.intent.approval matches Some(d)
                ==> approvals::parks(q, d) && valid))
            &&& after.phase is Run ==> after.phase == PhaseView::Run(tools::route(c.intent.tool))
                && after.granted && verdict == Ok::<bool, String>(after.needs_approval)
            &&& !(after.phase is Run) ==> (after.phase matches PhaseView::Done(o)
                && o.classification is Interrupted && o.call_id == c.intent.call_id
                && o.result is Null)
            &&& after.intent == c.intent
        }),
{
}

/// What the policy stored is what is committed of a result: the document where it
/// holds one exactly, else its text; nothing where it was dropped, and the result
/// itself where it was left alone.
pub proof fn law_stored_results_are_committed(o: ToolOutcomeView, text: String, exact: bool)
    ensures
        ({
            let s = admitted(o, Ok(Admission::Stored { text, exact }));
            &&& s.retained == Some(true)
            &&& exact && json::parsed(text@) is Some ==> json::parsed(text@) == Some(s.result)
            &&& !exact || json::parsed(text@) is None ==> s.result == JsonView::Text(text@)
            &&& s.classification == o.classification && s.error == o.error && s.call_id
                == o.call_id
        }),
        admitted(o, Ok(Admission::Dropped)).result is Null,
        admitted(o, Ok(Admission::Dropped)).retained == Some(false),
        admitted(o, Ok(Admission::Dropped)).call_id == o.call_id,
        admitted(o, Ok(Admission::Unchanged)) == o,
        is_candidate(o) <==> o.error is None && !(o.result is Null),
{
}

/// An outcome is committed behind its boundary, as the policy admits it; one
/// without a result is committed as it is.
pub proof fn law_outcomes_are_committed_as_admitted(
    o: ToolOutcomeView,
    admission: Option<Result<Admission, String>>,
    boundary: Option<BoundaryFactView>,
)
    requires
        is_candidate(o) ==> admission is Some,
    ensures
        ({
            let r = outcome_records(o, admission, boundary);
            &&& r.len() == if boundary is Some { 2int } else { 1 }
            &&& r.last().kind == "tool_outcome"@
            &&& !is_candidate(o) ==> r.last().payload == PayloadView::Outcome(o)
            &&& is_candidate(o) ==> r.last().payload == PayloadView::Outcome(
                admitted(o, admission->0),
            )
            &&& boundary matches Some(f) ==> r[0] == boundary_record(f)
        }),
{
}

/// A denial names the hook that decided it, by its module, its package and its
/// kind, and the decision.
pub proof fn law_denials_name_their_hook(e: HookEvaluationView, decision_digest: Seq<char>)
    ensures
        e.denier is None ==> denier_record(e, decision_digest) is None,
        e.denier matches Some(b) ==> (denier_record(e, decision_digest) matches Some(d)
            && d.module_id == b.module_id && d.package_digest == b.package_digest && d.hook
            == contribution::hook_name(b.hook) && d.decision_digest == decision_digest),
{
}

/// What was stored is handed on as the document it is, where it is one and reads
/// exactly, and otherwise as its text.
pub proof fn law_stored_documents_are_handed_on(t: Seq<char>)
    ensures
        stored_document(t, false) == JsonView::Text(t),
        json::parsed(t) is None ==> stored_document(t, true) == JsonView::Text(t),
        json::parsed(t) matches Some(v) ==> stored_document(t, true) == v,
{
}

} // verus!
