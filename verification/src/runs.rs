//! Runs: how wakes, starts and outcomes are recorded.
use vstd::prelude::*;
use vstd::string::*;
use crate::event;
use crate::event::{Event, EventView};
use crate::ids::{Digest, Id128};
use crate::json;
use crate::json::{Json, JsonView};
use crate::projection;
use crate::recovery;
use crate::recovery::TripLine;
use crate::session_error::SessionErrorView;
use crate::text;
use crate::value;
use crate::value::Value;

verus! {

broadcast use value::group_views;

// ---------- budgets ----------

/// What a run may use; nothing bounds what is not set.
#[derive(Debug, Clone, Copy, PartialEq, Eq, Structural)]
pub struct Budgets {
    pub deadline_secs: Option<u64>,
    pub tokens: Option<u64>,
    pub tools: Option<u64>,
    pub children: Option<u64>,
}

/// The budgets that a run keeps to: a child its own recorded ones, any other
/// run those of the session.
pub open spec fn budgets_of(child: bool, recorded: Option<Budgets>, session: Budgets) -> Budgets {
    if child && recorded is Some {
        recorded->0
    } else {
        session
    }
}

/// The budgets of a run; `recorded` are those that a child was spawned with.
pub fn run_budgets(child: bool, recorded: Option<Budgets>, session: Budgets) -> (r: Budgets)
    ensures
        r == budgets_of(child, recorded, session),
{
    match recorded {
        Some(own) => if child {
            own
        } else {
            session
        },
        None => session,
    }
}

// ---------- outcomes ----------

/// Why a run failed.
#[derive(Debug, Clone, PartialEq, Eq)]
pub enum FailureKind {
    UserCancelled,
    /// A branch transition or an adoption ended it.
    Quiesced,
    Internal,
    /// Any other kind, by its name.
    Other(String),
}

pub enum FailureKindView {
    UserCancelled,
    Quiesced,
    Internal,
    Other(Seq<char>),
}

impl View for FailureKind {
    type V = FailureKindView;

    open spec fn view(&self) -> FailureKindView {
        match *self {
            FailureKind::UserCancelled => FailureKindView::UserCancelled,
            FailureKind::Quiesced => FailureKindView::Quiesced,
            FailureKind::Internal => FailureKindView::Internal,
            FailureKind::Other(x) => FailureKindView::Other(x@),
        }
    }
}

impl Value for FailureKind {
    fn copy(&self) -> (r: Self) {
        match self {
            FailureKind::UserCancelled => FailureKind::UserCancelled,
            FailureKind::Quiesced => FailureKind::Quiesced,
            FailureKind::Internal => FailureKind::Internal,
            FailureKind::Other(x) => FailureKind::Other(x.copy()),
        }
    }

    fn same(&self, other: &Self) -> (r: bool) {
        match (self, other) {
            (FailureKind::UserCancelled, FailureKind::UserCancelled) => true,
            (FailureKind::Quiesced, FailureKind::Quiesced) => true,
            (FailureKind::Internal, FailureKind::Internal) => true,
            (FailureKind::Other(x), FailureKind::Other(y)) => x.same(y),
            _ => false,
        }
    }
}

/// How a run ended.
#[derive(Debug, Clone, PartialEq, Eq)]
pub enum TerminalOutcome {
    CompletedGoal,
    /// A budget or a hook stopped it.
    Blocked,
    Failed(FailureKind),
    /// Any other outcome, by its name.
    Other(String),
}

pub enum TerminalOutcomeView {
    CompletedGoal,
    Blocked,
    Failed(FailureKindView),
    Other(Seq<char>),
}

impl View for TerminalOutcome {
    type V = TerminalOutcomeView;

    open spec fn view(&self) -> TerminalOutcomeView {
        match *self {
            TerminalOutcome::CompletedGoal => TerminalOutcomeView::CompletedGoal,
            TerminalOutcome::Blocked => TerminalOutcomeView::Blocked,
            TerminalOutcome::Failed(x) => TerminalOutcomeView::Failed(x@),
            TerminalOutcome::Other(x) => TerminalOutcomeView::Other(x@),
        }
    }
}

impl Value for TerminalOutcome {
    fn copy(&self) -> (r: Self) {
        match self {
            TerminalOutcome::CompletedGoal => TerminalOutcome::CompletedGoal,
            TerminalOutcome::Blocked => TerminalOutcome::Blocked,
            TerminalOutcome::Failed(x) => TerminalOutcome::Failed(x.copy()),
            TerminalOutcome::Other(x) => TerminalOutcome::Other(x.copy()),
        }
    }

    fn same(&self, other: &Self) -> (r: bool) {
        match (self, other) {
            (TerminalOutcome::CompletedGoal, TerminalOutcome::CompletedGoal) => true,
            (TerminalOutcome::Blocked, TerminalOutcome::Blocked) => true,
            (TerminalOutcome::Failed(x), TerminalOutcome::Failed(y)) => x.same(y),
            (TerminalOutcome::Other(x), TerminalOutcome::Other(y)) => x.same(y),
            _ => false,
        }
    }
}

/// The record of a run that ended.
#[derive(Debug, Clone, PartialEq, Eq)]
pub struct RunOutcome {
    pub run_id: Id128,
    pub outcome: TerminalOutcome,
    pub reason: Option<String>,
}

pub struct RunOutcomeView {
    pub run_id: Seq<char>,
    pub outcome: TerminalOutcomeView,
    pub reason: Option<Seq<char>>,
}

impl View for RunOutcome {
    type V = RunOutcomeView;

    open spec fn view(&self) -> RunOutcomeView {
        RunOutcomeView {
            run_id: self.run_id@,
            outcome: self.outcome@,
            reason: value::opt_view(self.reason),
        }
    }
}

impl Value for RunOutcome {
    fn copy(&self) -> (r: Self) {
        RunOutcome {
            run_id: self.run_id.copy(),
            outcome: self.outcome.copy(),
            reason: value::copy_opt(&self.reason),
        }
    }

    fn same(&self, other: &Self) -> (r: bool) {
        self.run_id.same(&other.run_id)
            && self.outcome.same(&other.outcome)
            && value::same_opt(&self.reason, &other.reason)
    }
}

/// What wakes a run.
#[derive(Debug, Clone, PartialEq, Eq)]
pub struct Trigger {
    pub kind: String,
    pub referent: Option<Digest>,
}

pub struct TriggerView {
    pub kind: Seq<char>,
    pub referent: Option<Seq<char>>,
}

impl View for Trigger {
    type V = TriggerView;

    open spec fn view(&self) -> TriggerView {
        TriggerView {
            kind: self.kind@,
            referent: value::opt_view(self.referent),
        }
    }
}

impl Value for Trigger {
    fn copy(&self) -> (r: Self) {
        Trigger {
            kind: self.kind.copy(),
            referent: value::copy_opt(&self.referent),
        }
    }

    fn same(&self, other: &Self) -> (r: bool) {
        self.kind.same(&other.kind)
            && value::same_opt(&self.referent, &other.referent)
    }
}

/// An accepted wake: every one makes exactly one run.
#[derive(Debug, Clone, PartialEq, Eq)]
pub struct AcceptedRun {
    pub run_id: Id128,
    pub kind: String,
    pub trigger: Trigger,
}

pub struct AcceptedRunView {
    pub run_id: Seq<char>,
    pub kind: Seq<char>,
    pub trigger: TriggerView,
}

impl View for AcceptedRun {
    type V = AcceptedRunView;

    open spec fn view(&self) -> AcceptedRunView {
        AcceptedRunView {
            run_id: self.run_id@,
            kind: self.kind@,
            trigger: self.trigger@,
        }
    }
}

impl Value for AcceptedRun {
    fn copy(&self) -> (r: Self) {
        AcceptedRun {
            run_id: self.run_id.copy(),
            kind: self.kind.copy(),
            trigger: self.trigger.copy(),
        }
    }

    fn same(&self, other: &Self) -> (r: bool) {
        self.run_id.same(&other.run_id)
            && self.kind.same(&other.kind)
            && self.trigger.same(&other.trigger)
    }
}

pub open spec fn failure_text(k: FailureKindView) -> Seq<char> {
    match k {
        FailureKindView::UserCancelled => "UserCancelled"@,
        FailureKindView::Quiesced => "Quiesced"@,
        FailureKindView::Internal => "Internal"@,
        FailureKindView::Other(t) => t,
    }
}

pub open spec fn outcome_text(o: TerminalOutcomeView) -> Seq<char> {
    match o {
        TerminalOutcomeView::CompletedGoal => "CompletedGoal"@,
        TerminalOutcomeView::Blocked => "Blocked"@,
        TerminalOutcomeView::Failed(k) => "Failed("@ + failure_text(k) + ")"@,
        TerminalOutcomeView::Other(t) => t,
    }
}

impl FailureKind {
    /// The name of the kind.
    pub fn text(&self) -> (r: String)
        ensures
            r@ == failure_text(self@),
    {
        match self {
            FailureKind::UserCancelled => "UserCancelled".to_owned(),
            FailureKind::Quiesced => "Quiesced".to_owned(),
            FailureKind::Internal => "Internal".to_owned(),
            FailureKind::Other(t) => t.clone(),
        }
    }
}

impl TerminalOutcome {
    /// The outcome as it is shown.
    pub fn text(&self) -> (r: String)
        ensures
            r@ == outcome_text(self@),
    {
        match self {
            TerminalOutcome::CompletedGoal => "CompletedGoal".to_owned(),
            TerminalOutcome::Blocked => "Blocked".to_owned(),
            TerminalOutcome::Failed(k) => {
                let shown = k.text();
                text::cat3("Failed(", shown.as_str(), ")")
            },
            TerminalOutcome::Other(t) => t.clone(),
        }
    }
}

// ---------- wakes ----------

/// What the scheduler decided on a wake, with the record of it.
#[derive(Debug, Clone, PartialEq, Eq)]
pub enum WakeDecision {
    Accepted {
        run_id: Id128,
        kind: String,
        trigger_kind: String,
        trigger_digests: Vec<Digest>,
        record: Json,
    },
    Denied { record: Json },
}

pub open spec fn wake_record(d: WakeDecision) -> EventView {
    match d {
        WakeDecision::Accepted { record, .. } => event::document("wake_acceptance"@, record@),
        WakeDecision::Denied { record } => event::document("wake_denied"@, record@),
    }
}

/// The run of an accepted wake; its trigger refers to the first of the
/// digests that it was batched from.
pub open spec fn woken(d: WakeDecision) -> Option<AcceptedRunView> {
    match d {
        WakeDecision::Accepted { run_id, kind, trigger_kind, trigger_digests, .. } => Some(
            AcceptedRunView {
                run_id: run_id@,
                kind: kind@,
                trigger: TriggerView {
                    kind: trigger_kind@,
                    referent: if trigger_digests@.len() == 0 {
                        None
                    } else {
                        Some(trigger_digests@[0]@)
                    },
                },
            },
        ),
        WakeDecision::Denied { .. } => None,
    }
}

/// The event of a wake, and the run that it makes; a denied wake makes none.
pub fn accept_wake(d: WakeDecision) -> (r: (Event, Option<AcceptedRun>))
    ensures
        r.0@ == wake_record(d),
        value::opt_view(r.1) == woken(d),
{
    match d {
        WakeDecision::Accepted { run_id, kind, trigger_kind, trigger_digests, record } => {
            let referent = if trigger_digests.len() == 0 {
                None
            } else {
                Some(trigger_digests[0].copy())
            };
            let run = AcceptedRun {
                run_id,
                kind,
                trigger: Trigger { kind: trigger_kind, referent },
            };
            (event::document_event("wake_acceptance", record), Some(run))
        },
        WakeDecision::Denied { record } => (event::document_event("wake_denied", record), None),
    }
}

/// The event of a run that starts.
pub fn run_start_event(record: Json) -> (r: Event)
    ensures
        r@ == event::document("run_start"@, record@),
{
    event::document_event("run_start", record)
}

// ---------- ends ----------

/// The events of a run that ends: its outcome, then the trip of a breaker.
pub open spec fn ending(record: JsonView, trip: Option<JsonView>) -> Seq<EventView> {
    let first = Seq::empty().push(event::document("run_outcome"@, record));
    match trip {
        Some(t) => first.push(event::document("breaker_tripped"@, t)),
        None => first,
    }
}

/// The open loops that are left after a run: a completed goal resolves them,
/// any other end leaves them open.
pub open spec fn loops_after(loops: Seq<Seq<char>>, outcome: TerminalOutcomeView) -> Seq<Seq<char>> {
    if outcome == TerminalOutcomeView::CompletedGoal {
        Seq::empty()
    } else {
        loops
    }
}

/// The events of a run that ends, committed together.
pub fn run_outcome_events(record: Json, trip: Option<Json>) -> (r: Vec<Event>)
    ensures
        value::views(r@) == ending(record@, value::opt_view(trip)),
{
    let mut events: Vec<Event> = Vec::new();
    events.push(event::document_event("run_outcome", record));
    if let Some(t) = trip {
        events.push(event::document_event("breaker_tripped", t));
    }
    events
}

/// Settles the open loops once the end of a run is committed.
pub fn settle_loops(loops: &mut Vec<String>, outcome: &TerminalOutcome)
    ensures
        value::views(final(loops)@) == loops_after(value::views(old(loops)@), outcome@),
{
    let completed = match outcome {
        TerminalOutcome::CompletedGoal => true,
        _ => false,
    };
    if completed {
        loops.clear();
        assert(value::views(loops@) =~= Seq::empty());
    }
}

/// The event of an explicit resume.
pub open spec fn resumption() -> EventView {
    event::document("cognition_resumed"@, JsonView::Object(Seq::empty()))
}

pub fn resume_event() -> (r: Event)
    ensures
        r@ == resumption(),
{
    event::document_event("cognition_resumed", json::record(json::no_fields()))
}

/// The end of a run that the host cuts short.
pub open spec fn cut_short(run: Seq<char>, kind: FailureKindView, reason: Option<Seq<char>>) -> RunOutcomeView {
    RunOutcomeView { run_id: run, outcome: TerminalOutcomeView::Failed(kind), reason }
}

/// How the active run, if any, is ended with a failure.
pub fn fail_active_run(active: &Option<Id128>, kind: FailureKind, reason: String) -> (r: Option<
    RunOutcome,
>)
    ensures
        value::opt_view(r) == (match value::opt_view(*active) {
            Some(run) => Some(cut_short(run, kind@, Some(reason@))),
            None => None,
        }),
{
    match active {
        Some(run) => Some(
            RunOutcome {
                run_id: run.copy(),
                outcome: TerminalOutcome::Failed(kind),
                reason: Some(reason),
            },
        ),
        None => None,
    }
}

/// How the active run, if any, is cancelled at once.
pub fn cancel_active_run(active: &Option<Id128>) -> (r: Option<RunOutcome>)
    ensures
        value::opt_view(r) == (match value::opt_view(*active) {
            Some(run) => Some(
                cut_short(run, FailureKindView::UserCancelled, Some("cancelled by user"@)),
            ),
            None => None,
        }),
{
    fail_active_run(active, FailureKind::UserCancelled, "cancelled by user".to_owned())
}

/// How the active run, if any, is ended by a transition.
pub fn quiesce_active_run(active: &Option<Id128>) -> (r: Option<RunOutcome>)
    ensures
        value::opt_view(r) == (match value::opt_view(*active) {
            Some(run) => Some(cut_short(run, FailureKindView::Quiesced, None)),
            None => None,
        }),
{
    match active {
        Some(run) => Some(
            RunOutcome {
                run_id: run.copy(),
                outcome: TerminalOutcome::Failed(FailureKind::Quiesced),
                reason: None,
            },
        ),
        None => None,
    }
}

/// How a child ends whose loop failed: every run that started is recorded as
/// ended.
pub fn fail_child(child: &Id128, e: &str) -> (r: RunOutcome)
    ensures
        r@ == cut_short(child@, FailureKindView::Internal, Some("child run failed: "@ + e@)),
{
    RunOutcome {
        run_id: child.copy(),
        outcome: TerminalOutcome::Failed(FailureKind::Internal),
        reason: Some(text::cat2("child run failed: ", e)),
    }
}

/// What a child run is driven under, and what its end observes: it names the
/// child by the digest of its id.
pub fn child_trigger<F: Fn(Vec<u8>) -> Digest>(child: &Id128, digest_of: &F) -> (r: Trigger)
    requires
        forall|b: Vec<u8>| #[trigger] call_requires(*digest_of, (b,)),
    ensures
        r.kind@ == "ChildDone"@,
        r.referent matches Some(d) && projection::digested(*digest_of, child@, d),
{
    let bytes = child.text.as_str().as_bytes_vec();
    let d = (*digest_of)(bytes);
    assert(call_ensures(*digest_of, (bytes,), d));
    assert(projection::digested(*digest_of, child@, d));
    Trigger { kind: "ChildDone".to_owned(), referent: Some(d) }
}

// ---------- laws ----------

/// A trip pauses cognition across reopens, until a resume is committed.
pub proof fn law_trips_hold_until_a_resume(
    lines: Seq<TripLine>,
    trip: TripLine,
    resume: TripLine,
    t: JsonView,
)
    requires
        recovery::standing_trip(lines) is Ok,
        trip.decoded matches Ok(r) && r@.kind == "breaker_tripped"@,
        trip.trip matches Ok(d) && d@ == t,
        resume.decoded matches Ok(r) && r@.kind == resumption().kind,
    ensures
        recovery::standing_trip(lines.push(trip)) == Ok::<Option<JsonView>, SessionErrorView>(
            Some(t),
        ),
        recovery::standing_trip(lines.push(trip).push(resume)) == Ok::<
            Option<JsonView>,
            SessionErrorView,
        >(None),
{
    reveal_strlit("breaker_tripped");
    reveal_strlit("cognition_resumed");
    assert("breaker_tripped"@.len() != "cognition_resumed"@.len());
    let kinds = recovery::trip_kinds();
    assert(kinds[0] == "breaker_tripped"@);
    assert(kinds[1] == "cognition_resumed"@);
    let one = lines.push(trip);
    assert(one.drop_last() =~= lines);
    assert(one.push(resume).drop_last() =~= one);
}

/// Only a completed goal resolves the open loops.
pub proof fn law_only_goals_resolve_loops(loops: Seq<Seq<char>>, outcome: TerminalOutcomeView)
    ensures
        outcome != TerminalOutcomeView::CompletedGoal ==> loops_after(loops, outcome) == loops,
        loops_after(loops, TerminalOutcomeView::CompletedGoal).len() == 0,
{
}

/// A child works within the budgets it was spawned with, whatever the session
/// has left, and a run that is no child never works within a child's.
pub proof fn law_children_keep_their_own_budgets(own: Budgets, session: Budgets)
    ensures
        budgets_of(true, Some(own), session) == own,
        budgets_of(true, None, session) == session,
        budgets_of(false, Some(own), session) == session,
{
}

/// An accepted wake makes its run, triggered by the first digest that it was
/// batched from; a denied one makes none. Either is recorded as what it is.
pub proof fn law_accepted_wakes_make_their_run(d: WakeDecision)
    ensures
        d matches WakeDecision::Accepted {
            run_id,
            kind,
            trigger_kind,
            trigger_digests,
            record,
        } ==> {
            &&& wake_record(d).kind == "wake_acceptance"@
            &&& wake_record(d).payload == event::PayloadView::Document(record@)
            &&& woken(d) matches Some(r) && r.run_id == run_id@ && r.kind == kind@
                && r.trigger.kind == trigger_kind@ && (trigger_digests@.len() == 0
                ==> r.trigger.referent is None) && (trigger_digests@.len() > 0
                ==> r.trigger.referent == Some(trigger_digests@[0]@))
        },
        d matches WakeDecision::Denied { record } ==> wake_record(d).kind == "wake_denied"@
            && wake_record(d).payload == event::PayloadView::Document(record@) && woken(d) is None,
{
}

/// A run that ends is recorded with its outcome first and the trip of a breaker
/// behind it; a resume is recorded as one.
pub proof fn law_ends_are_recorded_before_trips(record: JsonView, trip: Option<JsonView>)
    ensures
        ({
            let s = ending(record, trip);
            &&& s.len() == if trip is Some { 2int } else { 1 }
            &&& s[0].kind == "run_outcome"@
            &&& s[0].payload == event::PayloadView::Document(record)
            &&& trip matches Some(t) ==> s[1].kind == "breaker_tripped"@ && s[1].payload
                == event::PayloadView::Document(t)
        }),
        resumption().kind == "cognition_resumed"@,
{
}

/// A run that is cut short fails, with its kind and its reason.
pub proof fn law_cut_runs_fail(run: Seq<char>, kind: FailureKindView, reason: Option<Seq<char>>)
    ensures
        cut_short(run, kind, reason).run_id == run,
        cut_short(run, kind, reason).outcome == TerminalOutcomeView::Failed(kind),
        cut_short(run, kind, reason).reason == reason,
{
}

/// An outcome is shown by its name, a failure with its kind.
pub proof fn law_outcomes_are_shown_by_name(t: Seq<char>)
    ensures
        outcome_text(TerminalOutcomeView::CompletedGoal) == "CompletedGoal"@,
        outcome_text(TerminalOutcomeView::Blocked) == "Blocked"@,
        outcome_text(TerminalOutcomeView::Other(t)) == t,
        outcome_text(TerminalOutcomeView::Failed(FailureKindView::UserCancelled)) == "Failed("@
            + "UserCancelled"@ + ")"@,
        outcome_text(TerminalOutcomeView::Failed(FailureKindView::Quiesced)) == "Failed("@
            + "Quiesced"@ + ")"@,
        outcome_text(TerminalOutcomeView::Failed(FailureKindView::Internal)) == "Failed("@
            + "Internal"@ + ")"@,
        outcome_text(TerminalOutcomeView::Failed(FailureKindView::Other(t))) == "Failed("@ + t
            + ")"@,
{
}

} // verus!
