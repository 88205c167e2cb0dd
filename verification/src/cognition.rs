//! The cognition loop: one bounded orchestration of a run over a closed set of
//! commands. The host performs what the phase asks for and hands back what came
//! of it.
use vstd::prelude::*;
use vstd::string::*;
use crate::contribution;
use crate::contribution::HookKind;
use crate::event;
use crate::event::{Event, EventView};
use crate::hooks;
use crate::hooks::{Decision, HookBindingView, HookEvaluation, HookEvaluationView};
use crate::ids::{Digest, Id128};
use crate::json;
use crate::json::{Json, JsonView};
use crate::model::{Message, MessageView, ProjectionState, ProjectionStateView, Role};
use crate::runs::{Budgets, FailureKind, FailureKindView, TerminalOutcome, TerminalOutcomeView};
use crate::session_error;
use crate::session_error::{SessionError, SessionErrorView};
use crate::text;
use crate::tools;
use crate::tools::{
    Annotation, AnnotationView, Principal, PrincipalView, ToolOutcome, ToolOutcomeView,
};
use crate::value;
use crate::value::Value;

verus! {

broadcast use value::group_views;

// ---------- commands and results ----------

/// Which result a tool's outcome is handed back as.
#[derive(Debug, Clone, Copy, PartialEq, Eq, Structural)]
pub enum Lane {
    Tool,
    Memory,
    Child,
}

/// What the provider of cognition asks for next.
#[derive(Debug, Clone, PartialEq, Eq)]
pub enum StepCommand {
    ModelCall,
    ToolIntent { tool: String, arguments: Json },
    MemoryQuery { query: String },
    MemoryPropose { claim: Json },
    ChildSpawn { spec: Json },
    ScheduleWake { kind: String },
    Finish(TerminalOutcome),
}

pub enum StepCommandView {
    ModelCall,
    ToolIntent { tool: Seq<char>, arguments: JsonView },
    MemoryQuery { query: Seq<char> },
    MemoryPropose { claim: JsonView },
    ChildSpawn { spec: JsonView },
    ScheduleWake { kind: Seq<char> },
    Finish(TerminalOutcomeView),
}

impl View for StepCommand {
    type V = StepCommandView;

    open spec fn view(&self) -> StepCommandView {
        match *self {
            StepCommand::ModelCall => StepCommandView::ModelCall,
            StepCommand::ToolIntent { tool, arguments } => StepCommandView::ToolIntent { tool: tool@, arguments: arguments@ },
            StepCommand::MemoryQuery { query } => StepCommandView::MemoryQuery { query: query@ },
            StepCommand::MemoryPropose { claim } => StepCommandView::MemoryPropose { claim: claim@ },
            StepCommand::ChildSpawn { spec } => StepCommandView::ChildSpawn { spec: spec@ },
            StepCommand::ScheduleWake { kind } => StepCommandView::ScheduleWake { kind: kind@ },
            StepCommand::Finish(x) => StepCommandView::Finish(x@),
        }
    }
}

/// What came of the last command.
#[derive(Debug, Clone, PartialEq, Eq)]
pub enum StepResult {
    Model(Json),
    Outcome { lane: Lane, outcome: ToolOutcome },
    Scheduled,
}

pub enum StepResultView {
    Model(JsonView),
    Outcome { lane: Lane, outcome: ToolOutcomeView },
    Scheduled,
}

impl View for StepResult {
    type V = StepResultView;

    open spec fn view(&self) -> StepResultView {
        match *self {
            StepResult::Model(x) => StepResultView::Model(x@),
            StepResult::Outcome { lane, outcome } => StepResultView::Outcome { lane, outcome: outcome@ },
            StepResult::Scheduled => StepResultView::Scheduled,
        }
    }
}

impl Value for StepResult {
    fn copy(&self) -> (r: Self) {
        match self {
            StepResult::Model(x) => StepResult::Model(x.copy()),
            StepResult::Outcome { lane, outcome } => StepResult::Outcome { lane: *lane, outcome: outcome.copy() },
            StepResult::Scheduled => StepResult::Scheduled,
        }
    }

    fn same(&self, other: &Self) -> (r: bool) {
        match (self, other) {
            (StepResult::Model(x), StepResult::Model(y)) => x.same(y),
            (StepResult::Outcome { lane, outcome }, StepResult::Outcome { lane: lane_other, outcome: outcome_other }) => *lane == *lane_other && outcome.same(outcome_other),
            (StepResult::Scheduled, StepResult::Scheduled) => true,
            _ => false,
        }
    }
}

/// What a run works from.
#[derive(Debug, Clone, PartialEq, Eq)]
pub struct StepContext {
    pub rendered: String,
    pub rendered_hash: Digest,
    pub selected_events: Vec<u64>,
    pub budget: Budgets,
    pub projection_digest: Option<Digest>,
    pub memory_roots: Vec<Digest>,
}

pub struct StepContextView {
    pub rendered: Seq<char>,
    pub rendered_hash: Seq<char>,
    pub selected_events: Seq<u64>,
    pub budget: Budgets,
    pub projection_digest: Option<Seq<char>>,
    pub memory_roots: Seq<Seq<char>>,
}

impl View for StepContext {
    type V = StepContextView;

    open spec fn view(&self) -> StepContextView {
        StepContextView {
            rendered: self.rendered@,
            rendered_hash: self.rendered_hash@,
            selected_events: self.selected_events@,
            budget: self.budget,
            projection_digest: value::opt_view(self.projection_digest),
            memory_roots: value::views(self.memory_roots@),
        }
    }
}

// ---------- phases ----------

/// What the host is to do next.
#[derive(Debug, Clone, PartialEq, Eq)]
pub enum LoopPhase {
    /// Evaluate the hooks of a turn that starts.
    Hooks,
    /// Commit the denial of the turn.
    Deny(Event),
    /// Commit the annotations, each on its own.
    Annotate(Vec<Event>),
    /// Render the context.
    Render,
    /// Look at the cancel flag and the budgets.
    Boundary,
    /// Ask for the next command.
    Step,
    /// Call the model.
    Model { messages: Vec<Message>, selected: Vec<u64>, rendered: String },
    /// Call a tool.
    Tool { lane: Lane, tool: String, arguments: Json },
    /// Let the driver decide the newest parked approval.
    Parked { lane: Lane, report: ToolOutcome },
    /// Commit the outcome of a tool.
    Commit { lane: Lane, outcome: ToolOutcome },
    /// Observe a trigger.
    Observe { kind: String },
    /// Record how the run ends; a cancel that was taken is cleared.
    End { outcome: TerminalOutcome, reason: Option<String>, cancelled: bool },
    Done(TerminalOutcome),
    Failed(SessionError),
}

pub enum LoopPhaseView {
    Hooks,
    Deny(EventView),
    Annotate(Seq<EventView>),
    Render,
    Boundary,
    Step,
    Model { messages: Seq<MessageView>, selected: Seq<u64>, rendered: Seq<char> },
    Tool { lane: Lane, tool: Seq<char>, arguments: JsonView },
    Parked { lane: Lane, report: ToolOutcomeView },
    Commit { lane: Lane, outcome: ToolOutcomeView },
    Observe { kind: Seq<char> },
    End { outcome: TerminalOutcomeView, reason: Option<Seq<char>>, cancelled: bool },
    Done(TerminalOutcomeView),
    Failed(SessionErrorView),
}

impl View for LoopPhase {
    type V = LoopPhaseView;

    open spec fn view(&self) -> LoopPhaseView {
        match *self {
            LoopPhase::Hooks => LoopPhaseView::Hooks,
            LoopPhase::Deny(x) => LoopPhaseView::Deny(x@),
            LoopPhase::Annotate(x) => LoopPhaseView::Annotate(value::views(x@)),
            LoopPhase::Render => LoopPhaseView::Render,
            LoopPhase::Boundary => LoopPhaseView::Boundary,
            LoopPhase::Step => LoopPhaseView::Step,
            LoopPhase::Model { messages, selected, rendered } => LoopPhaseView::Model { messages: value::views(messages@), selected: selected@, rendered: rendered@ },
            LoopPhase::Tool { lane, tool, arguments } => LoopPhaseView::Tool { lane, tool: tool@, arguments: arguments@ },
            LoopPhase::Parked { lane, report } => LoopPhaseView::Parked { lane, report: report@ },
            LoopPhase::Commit { lane, outcome } => LoopPhaseView::Commit { lane, outcome: outcome@ },
            LoopPhase::Observe { kind } => LoopPhaseView::Observe { kind: kind@ },
            LoopPhase::End { outcome, reason, cancelled } => LoopPhaseView::End { outcome: outcome@, reason: value::opt_view(reason), cancelled },
            LoopPhase::Done(x) => LoopPhaseView::Done(x@),
            LoopPhase::Failed(x) => LoopPhaseView::Failed(x@),
        }
    }
}

/// The loop of a run.
pub struct CognitionLoop {
    run: Id128,
    session: Id128,
    context: Option<StepContext>,
    last: Option<StepResult>,
    phase: LoopPhase,
}

pub struct CognitionLoopView {
    pub run: Seq<char>,
    pub session: Seq<char>,
    pub context: Option<StepContextView>,
    /// What came of the last command.
    pub last: Option<StepResultView>,
    pub phase: LoopPhaseView,
}

impl View for CognitionLoop {
    type V = CognitionLoopView;

    closed spec fn view(&self) -> CognitionLoopView {
        CognitionLoopView {
            run: self.run@,
            session: self.session@,
            context: value::opt_view(self.context),
            last: value::opt_view(self.last),
            phase: self.phase@,
        }
    }
}

/// The context is rendered before anything is asked of the provider.
pub open spec fn ready(c: CognitionLoopView) -> bool {
    (c.phase is Boundary || c.phase is Step || c.phase is Model || c.phase is Tool
        || c.phase is Parked || c.phase is Commit || c.phase is Observe) ==> c.context is Some
}

pub open spec fn at(c: CognitionLoopView, phase: LoopPhaseView) -> CognitionLoopView {
    CognitionLoopView { phase, ..c }
}

// ---------- a turn starts ----------

/// What the hooks of a turn are shown.
pub open spec fn turn_context(run: Seq<char>) -> JsonView {
    JsonView::Object(json::fields2(json::fv("hook"@, JsonView::Text(contribution::hook_name(HookKind::OnTurnStart))), json::fv("run"@, JsonView::Text(run))))
}

/// The record of a denied turn.
pub open spec fn turn_denial(
    run: Seq<char>,
    denier: Option<HookBindingView>,
    decision_digest: Seq<char>,
) -> EventView {
    event::document(
        "turn_denied"@,
        JsonView::Object(json::fields5(json::fv("run"@, JsonView::Text(run)), json::fv("hook"@, JsonView::Text(contribution::hook_name(HookKind::OnTurnStart))), json::fv("module_id"@, json::text_or_null(match denier { Some(b) => Some(b.module_id), None => None })), json::fv("package_digest"@, json::text_or_null(match denier { Some(b) => Some(b.package_digest), None => None })), json::fv("decision_digest"@, JsonView::Text(decision_digest)))),
    )
}

/// The record of an annotation.
pub open spec fn annotation_record(run: Seq<char>, a: AnnotationView) -> EventView {
    event::document(
        "hook_annotation"@,
        JsonView::Object(json::fields4(json::fv("run"@, JsonView::Text(run)), json::fv("hook"@, JsonView::Text(contribution::hook_name(HookKind::OnTurnStart))), json::fv("key"@, JsonView::Text(a.key)), json::fv("value"@, a.value))),
    )
}

/// The phase once the hooks were evaluated. A denial ends the turn before any
/// model is called; annotations are committed before the context is rendered.
pub open spec fn after_hooks(run: Seq<char>, e: HookEvaluationView, decision_digest: Seq<char>) -> LoopPhaseView {
    if e.decision is Deny {
        LoopPhaseView::Deny(turn_denial(run, e.denier, decision_digest))
    } else if e.annotations.len() == 0 {
        LoopPhaseView::Render
    } else {
        LoopPhaseView::Annotate(
            e.annotations.map_values(|a: AnnotationView| annotation_record(run, a)),
        )
    }
}

/// The end of a denied turn.
pub open spec fn denied_end() -> LoopPhaseView {
    LoopPhaseView::End {
        outcome: TerminalOutcomeView::Blocked,
        reason: Some(hooks::denied_reason()),
        cancelled: false,
    }
}

// ---------- steps ----------

/// The end of a run that the user cancelled.
pub open spec fn cancelled_end() -> LoopPhaseView {
    LoopPhaseView::End {
        outcome: TerminalOutcomeView::Failed(FailureKindView::UserCancelled),
        reason: Some("cancelled by user"@),
        cancelled: true,
    }
}

/// The phase behind a boundary: a cancel comes first, then an exhausted
/// budget.
pub open spec fn after_boundary(cancelled: bool, budget: Result<(), String>) -> LoopPhaseView {
    if cancelled {
        cancelled_end()
    } else {
        match budget {
            Ok(()) => LoopPhaseView::Step,
            Err(e) => LoopPhaseView::End {
                outcome: TerminalOutcomeView::Blocked,
                reason: Some(e@),
                cancelled: false,
            },
        }
    }
}

/// What a model is sent: the lowered projection, or the rendered context where
/// there is none.
pub open spec fn request(projection: Option<ProjectionStateView>, rendered: Seq<char>) -> Seq<MessageView> {
    match projection {
        Some(p) => p.lowered,
        None => Seq::empty().push(
            MessageView { role: Role::User, content: rendered, tool_call_id: None },
        ),
    }
}

/// The phase that a command leads to.
pub open spec fn after_command(
    context: StepContextView,
    command: Result<StepCommand, String>,
    projection: Option<ProjectionStateView>,
) -> LoopPhaseView {
    match command {
        Err(e) => LoopPhaseView::Failed(session_error::invalid("cognition step: "@ + e@)),
        Ok(c) => match c@ {
            StepCommandView::ModelCall => LoopPhaseView::Model {
                messages: request(projection, context.rendered),
                selected: context.selected_events,
                rendered: context.rendered,
            },
            StepCommandView::ToolIntent { tool, arguments } => LoopPhaseView::Tool {
                lane: Lane::Tool,
                tool,
                arguments,
            },
            StepCommandView::MemoryQuery { query } => LoopPhaseView::Tool {
                lane: Lane::Memory,
                tool: "memory.query"@,
                arguments: JsonView::Object(json::fields1(json::fv("query"@, JsonView::Text(query)))),
            },
            StepCommandView::MemoryPropose { claim } => LoopPhaseView::Tool {
                lane: Lane::Memory,
                tool: "memory.propose"@,
                arguments: JsonView::Object(json::fields1(json::fv("claim"@, claim))),
            },
            StepCommandView::ChildSpawn { spec } => LoopPhaseView::Tool {
                lane: Lane::Child,
                tool: "child.spawn"@,
                arguments: spec,
            },
            StepCommandView::ScheduleWake { kind } => LoopPhaseView::Observe { kind },
            StepCommandView::Finish(outcome) => LoopPhaseView::End {
                outcome,
                reason: None,
                cancelled: false,
            },
        },
    }
}

/// The loop with a result, back at the boundary.
pub open spec fn with_result(c: CognitionLoopView, result: StepResultView) -> CognitionLoopView {
    CognitionLoopView { last: Some(result), phase: LoopPhaseView::Boundary, ..c }
}

/// The loop after the model answered. A cancel seen while it streamed ends the
/// run as one at a boundary does; any other failure is the loop's own.
pub open spec fn after_model(c: CognitionLoopView, answer: Result<Json, SessionError>) -> CognitionLoopView {
    match answer {
        Ok(v) => with_result(c, StepResultView::Model(v@)),
        Err(e) => if e@ is Cancelled {
            at(c, cancelled_end())
        } else {
            at(c, LoopPhaseView::Failed(e@))
        },
    }
}

/// The loop after a tool was called. An outcome that awaits an approval is not
/// final and is never committed; a denied one was committed with its denial.
pub open spec fn after_tool(c: CognitionLoopView, lane: Lane, outcome: ToolOutcomeView) -> CognitionLoopView {
    if tools::awaits_approval(outcome) {
        at(c, LoopPhaseView::Parked { lane, report: outcome })
    } else if outcome.classification is Denied {
        with_result(c, StepResultView::Outcome { lane, outcome })
    } else {
        at(c, LoopPhaseView::Commit { lane, outcome })
    }
}

/// The loop after a parked approval: what the driver resolved, or the report
/// that it stays parked.
pub open spec fn after_parked(
    c: CognitionLoopView,
    lane: Lane,
    report: ToolOutcomeView,
    resolved: Option<ToolOutcomeView>,
) -> CognitionLoopView {
    with_result(
        c,
        StepResultView::Outcome {
            lane,
            outcome: match resolved {
                Some(o) => o,
                None => report,
            },
        },
    )
}

fn annotation_events(run: &Id128, all: &Vec<Annotation>) -> (r: Vec<Event>)
    ensures
        value::views(r@) == value::views(all@).map_values(
            |a: AnnotationView| annotation_record(run@, a),
        ),
{
    let ghost want = value::views(all@).map_values(
        |a: AnnotationView| annotation_record(run@, a),
    );
    let mut out: Vec<Event> = Vec::new();
    let mut i: usize = 0;
    assert(value::views(out@) =~= want.take(0));
    while i < all.len()
        invariant
            i <= all.len(),
            want == value::views(all@).map_values(
                |a: AnnotationView| annotation_record(run@, a),
            ),
            value::views(out@) == want.take(i as int),
        decreases all.len() - i,
    {
        let a = &all[i];
        let f = json::field(json::no_fields(), "run", json::text_json(run.text.as_str()));
        let f = json::field(f, "hook", json::text_json(HookKind::OnTurnStart.as_str()));
        let f = json::field(f, "key", json::text_json(a.key.as_str()));
        let f = json::field(f, "value", a.value.copy());
        let e = event::document_event("hook_annotation", json::record(f));
        assert(e@ == want[i as int]);
        out.push(e);
        assert(want.take(i + 1) =~= want.take(i as int).push(want[i as int]));
        i = i + 1;
    }
    assert(want.take(i as int) =~= want);
    out
}

fn denial_event(run: &Id128, e: &HookEvaluation, decision_digest: &Digest) -> (r: Event)
    ensures
        r@ == turn_denial(run@, e@.denier, decision_digest@),
{
    let (module_id, package_digest) = match &e.denier {
        Some(b) => (
            json::text_json(b.module_id.text.as_str()),
            json::text_json(b.package_digest.text.as_str()),
        ),
        None => (Json::Null, Json::Null),
    };
    let f = json::field(json::no_fields(), "run", json::text_json(run.text.as_str()));
    let f = json::field(f, "hook", json::text_json(HookKind::OnTurnStart.as_str()));
    let f = json::field(f, "module_id", module_id);
    let f = json::field(f, "package_digest", package_digest);
    let f = json::field(f, "decision_digest", json::text_json(decision_digest.text.as_str()));
    event::document_event("turn_denied", json::record(f))
}

fn request_messages(projection: &Option<ProjectionState>, rendered: &str) -> (r: Vec<Message>)
    ensures
        value::views(r@) == request(value::opt_view(*projection), rendered@),
{
    match projection {
        Some(p) => value::copy_vec(&p.lowered),
        None => {
            let mut out: Vec<Message> = Vec::new();
            out.push(
                Message { role: Role::User, content: rendered.to_owned(), tool_call_id: None },
            );
            assert(value::views(out@) =~= request(None, rendered@));
            out
        },
    }
}

impl CognitionLoop {
    /// The loop of a run.
    pub fn start(run: Id128, session: Id128) -> (r: Self)
        ensures
            r@ == (CognitionLoopView {
                run: run@,
                session: session@,
                context: None,
                last: None,
                phase: LoopPhaseView::Hooks,
            }),
            ready(r@),
    {
        CognitionLoop { run, session, context: None, last: None, phase: LoopPhase::Hooks }
    }

    /// What the host is to do next.
    pub fn phase(&self) -> (r: &LoopPhase)
        ensures
            r@ == self@.phase,
    {
        &self.phase
    }

    /// What came of the last command.
    pub fn last(&self) -> (r: &Option<StepResult>)
        ensures
            value::opt_view(*r) == self@.last,
    {
        &self.last
    }

    /// The rendered context.
    pub fn context(&self) -> (r: &Option<StepContext>)
        ensures
            value::opt_view(*r) == self@.context,
    {
        &self.context
    }

    /// Whom tools are called for.
    pub fn principal(&self) -> (r: Principal)
        ensures
            r@ == (PrincipalView { session: self@.session, generation: 0, run: Some(0) }),
    {
        Principal { session: self.session.copy(), generation: 0, run: Some(0) }
    }

    /// What the hooks of the turn are shown.
    pub fn hook_context(&self) -> (r: Json)
        ensures
            r@ == turn_context(self@.run),
    {
        let f = json::field(json::no_fields(), "hook", json::text_json(HookKind::OnTurnStart.as_str()));
        let f = json::field(f, "run", json::text_json(self.run.text.as_str()));
        json::record(f)
    }

    /// The hooks were evaluated.
    pub fn hooks_evaluated(&mut self, e: &HookEvaluation, decision_digest: &Digest)
        requires
            ready(old(self)@),
            old(self)@.phase is Hooks,
        ensures
            final(self)@ == at(
                old(self)@,
                after_hooks(old(self)@.run, e@, decision_digest@),
            ),
            ready(final(self)@),
    {
        let denied = match e.decision {
            Decision::Deny { .. } => true,
            Decision::Continue => false,
        };
        if denied {
            let event = denial_event(&self.run, e, decision_digest);
            self.phase = LoopPhase::Deny(event);
        } else if e.annotations.len() == 0 {
            self.phase = LoopPhase::Render;
        } else {
            let events = annotation_events(&self.run, &e.annotations);
            self.phase = LoopPhase::Annotate(events);
        }
    }

    /// The denial was committed.
    pub fn denial_committed(&mut self)
        requires
            ready(old(self)@),
            old(self)@.phase is Deny,
        ensures
            final(self)@ == at(old(self)@, denied_end()),
            ready(final(self)@),
    {
        self.phase = LoopPhase::End {
            outcome: TerminalOutcome::Blocked,
            reason: Some(hooks::denied_reason_text()),
            cancelled: false,
        };
    }

    /// The annotations were committed.
    pub fn annotations_committed(&mut self)
        requires
            ready(old(self)@),
            old(self)@.phase is Annotate,
        ensures
            final(self)@ == at(old(self)@, LoopPhaseView::Render),
            ready(final(self)@),
    {
        self.phase = LoopPhase::Render;
    }

    /// The context was rendered.
    pub fn rendered(&mut self, context: StepContext)
        requires
            ready(old(self)@),
            old(self)@.phase is Render,
        ensures
            final(self)@ == (CognitionLoopView {
                context: Some(context@),
                phase: LoopPhaseView::Boundary,
                ..old(self)@
            }),
            ready(final(self)@),
    {
        self.context = Some(context);
        self.phase = LoopPhase::Boundary;
    }

    /// The boundary was checked: the cancel flag, and the budgets.
    pub fn boundary_checked(&mut self, cancelled: bool, budget: Result<(), String>)
        requires
            ready(old(self)@),
            old(self)@.phase is Boundary,
        ensures
            final(self)@ == at(old(self)@, after_boundary(cancelled, budget)),
            ready(final(self)@),
    {
        if cancelled {
            self.cancel();
            return ;
        }
        match budget {
            Ok(()) => self.phase = LoopPhase::Step,
            Err(e) => self.phase = LoopPhase::End {
                outcome: TerminalOutcome::Blocked,
                reason: Some(e),
                cancelled: false,
            },
        }
    }

    fn cancel(&mut self)
        ensures
            final(self)@ == at(old(self)@, cancelled_end()),
    {
        self.phase = LoopPhase::End {
            outcome: TerminalOutcome::Failed(FailureKind::UserCancelled),
            reason: Some("cancelled by user".to_owned()),
            cancelled: true,
        };
    }

    /// The provider of cognition gave its next command, or failed.
    pub fn commanded(
        &mut self,
        command: Result<StepCommand, String>,
        projection: &Option<ProjectionState>,
    )
        requires
            ready(old(self)@),
            old(self)@.phase is Step,
        ensures
            final(self)@ == at(
                old(self)@,
                after_command(
                    old(self)@.context->0,
                    command,
                    value::opt_view(*projection),
                ),
            ),
            ready(final(self)@),
    {
        let c = match command {
            Ok(c) => c,
            Err(e) => {
                self.phase = LoopPhase::Failed(
                    SessionError::InvalidInput(text::cat2("cognition step: ", e.as_str())),
                );
                return ;
            },
        };
        match c {
            StepCommand::ModelCall => {
                if let Some(context) = &self.context {
                    let messages = request_messages(projection, context.rendered.as_str());
                    let selected = value::copy_numbers(&context.selected_events);
                    let rendered = context.rendered.clone();
                    self.phase = LoopPhase::Model { messages, selected, rendered };
                }
            },
            StepCommand::ToolIntent { tool, arguments } => {
                self.phase = LoopPhase::Tool { lane: Lane::Tool, tool, arguments };
            },
            StepCommand::MemoryQuery { query } => {
                let arguments = json::record(
                    json::field(json::no_fields(), "query", Json::Text(query)),
                );
                self.phase = LoopPhase::Tool {
                    lane: Lane::Memory,
                    tool: "memory.query".to_owned(),
                    arguments,
                };
            },
            StepCommand::MemoryPropose { claim } => {
                let arguments = json::record(json::field(json::no_fields(), "claim", claim));
                self.phase = LoopPhase::Tool {
                    lane: Lane::Memory,
                    tool: "memory.propose".to_owned(),
                    arguments,
                };
            },
            StepCommand::ChildSpawn { spec } => {
                self.phase = LoopPhase::Tool {
                    lane: Lane::Child,
                    tool: "child.spawn".to_owned(),
                    arguments: spec,
                };
            },
            StepCommand::ScheduleWake { kind } => {
                self.phase = LoopPhase::Observe { kind };
            },
            StepCommand::Finish(outcome) => {
                self.phase = LoopPhase::End { outcome, reason: None, cancelled: false };
            },
        }
    }

    /// The model answered, or failed.
    pub fn model_answered(&mut self, answer: Result<Json, SessionError>)
        requires
            ready(old(self)@),
            old(self)@.phase is Model,
        ensures
            final(self)@ == after_model(old(self)@, answer),
            ready(final(self)@),
    {
        match answer {
            Ok(v) => {
                self.last = Some(StepResult::Model(v));
                self.phase = LoopPhase::Boundary;
            },
            Err(e) => {
                let cancelled = match e {
                    SessionError::Cancelled => true,
                    _ => false,
                };
                if cancelled {
                    self.cancel();
                } else {
                    self.phase = LoopPhase::Failed(e);
                }
            },
        }
    }

    /// A tool was called.
    pub fn tool_answered(&mut self, outcome: ToolOutcome)
        requires
            ready(old(self)@),
            old(self)@.phase is Tool,
        ensures
            final(self)@ == after_tool(old(self)@, old(self)@.phase->Tool_lane, outcome@),
            ready(final(self)@),
    {
        let lane = match &self.phase {
            LoopPhase::Tool { lane, .. } => *lane,
            _ => return ,
        };
        if outcome.awaiting_approval() {
            self.phase = LoopPhase::Parked { lane, report: outcome };
        } else if outcome.denied() {
            self.last = Some(StepResult::Outcome { lane, outcome });
            self.phase = LoopPhase::Boundary;
        } else {
            self.phase = LoopPhase::Commit { lane, outcome };
        }
    }

    /// The driver resolved the parked approval, or left it parked.
    pub fn parked_resolved(&mut self, resolved: Option<ToolOutcome>)
        requires
            ready(old(self)@),
            old(self)@.phase is Parked,
        ensures
            final(self)@ == after_parked(
                old(self)@,
                old(self)@.phase->Parked_lane,
                old(self)@.phase->report,
                value::opt_view(resolved),
            ),
            ready(final(self)@),
    {
        let (lane, report) = match &self.phase {
            LoopPhase::Parked { lane, report } => (*lane, report.copy()),
            _ => return ,
        };
        let outcome = match resolved {
            Some(o) => o,
            None => report,
        };
        self.last = Some(StepResult::Outcome { lane, outcome });
        self.phase = LoopPhase::Boundary;
    }

    /// The outcome was committed.
    pub fn outcome_committed(&mut self)
        requires
            ready(old(self)@),
            old(self)@.phase is Commit,
        ensures
            final(self)@ == with_result(
                old(self)@,
                StepResultView::Outcome {
                    lane: old(self)@.phase->Commit_lane,
                    outcome: old(self)@.phase->Commit_outcome,
                },
            ),
            ready(final(self)@),
    {
        let (lane, outcome) = match &self.phase {
            LoopPhase::Commit { lane, outcome } => (*lane, outcome.copy()),
            _ => return ,
        };
        self.last = Some(StepResult::Outcome { lane, outcome });
        self.phase = LoopPhase::Boundary;
    }

    /// The trigger was observed.
    pub fn observed(&mut self)
        requires
            ready(old(self)@),
            old(self)@.phase is Observe,
        ensures
            final(self)@ == with_result(old(self)@, StepResultView::Scheduled),
            ready(final(self)@),
    {
        self.last = Some(StepResult::Scheduled);
        self.phase = LoopPhase::Boundary;
    }

    /// The end of the run was recorded.
    pub fn run_ended(&mut self)
        requires
            ready(old(self)@),
            old(self)@.phase is End,
        ensures
            final(self)@ == at(
                old(self)@,
                LoopPhaseView::Done(old(self)@.phase->End_outcome),
            ),
            ready(final(self)@),
    {
        let outcome = match &self.phase {
            LoopPhase::End { outcome, .. } => outcome.copy(),
            _ => return ,
        };
        self.phase = LoopPhase::Done(outcome);
    }
}

// ---------- laws ----------

/// A denied turn is recorded and ends as blocked; no model is called.
pub proof fn law_denied_turns_end_blocked(
    c: CognitionLoopView,
    e: HookEvaluationView,
    decision_digest: Seq<char>,
)
    requires
        e.decision is Deny,
    ensures
        after_hooks(c.run, e, decision_digest) is Deny,
        denied_end() matches LoopPhaseView::End { outcome, reason, cancelled } && outcome
            == TerminalOutcomeView::Blocked && reason == Some(hooks::denied_reason())
            && !cancelled,
{
}

/// A cancel outranks an exhausted budget, wherever it is seen, and is taken
/// once: the flag is cleared with it.
pub proof fn law_cancels_are_taken_once(
    c: CognitionLoopView,
    budget: Result<(), String>,
    e: SessionError,
)
    requires
        e@ is Cancelled,
    ensures
        after_boundary(true, budget) == cancelled_end(),
        after_model(c, Err(e)).phase == cancelled_end(),
        cancelled_end() matches LoopPhaseView::End { outcome, cancelled, .. } && cancelled
            && outcome == TerminalOutcomeView::Failed(FailureKindView::UserCancelled),
{
}

/// Only a final outcome is committed: one that awaits an approval or was
/// denied is not.
pub proof fn law_only_final_outcomes_are_committed(
    c: CognitionLoopView,
    lane: Lane,
    outcome: ToolOutcomeView,
)
    ensures
        after_tool(c, lane, outcome).phase is Commit <==> !tools::awaits_approval(outcome) && !(
        outcome.classification is Denied),
{
}

/// Every result goes through a boundary before the next command.
pub proof fn law_results_meet_a_boundary(
    c: CognitionLoopView,
    lane: Lane,
    report: ToolOutcomeView,
    resolved: Option<ToolOutcomeView>,
    v: Json,
)
    ensures
        after_parked(c, lane, report, resolved).phase is Boundary,
        after_model(c, Ok(v)).phase is Boundary,
        with_result(c, StepResultView::Scheduled).phase is Boundary,
{
}

/// A turn that no hook denies goes on to its context, once its annotations are
/// recorded, each in its order.
pub proof fn law_turns_go_on_unless_denied(
    run: Seq<char>,
    e: HookEvaluationView,
    decision_digest: Seq<char>,
)
    requires
        !(e.decision is Deny),
    ensures
        e.annotations.len() == 0 ==> after_hooks(run, e, decision_digest) is Render,
        e.annotations.len() > 0 ==> (
        after_hooks(run, e, decision_digest) matches LoopPhaseView::Annotate(events)
            && events.len() == e.annotations.len() && forall|i: int|
            0 <= i < events.len() ==> #[trigger] events[i] == annotation_record(
                run,
                e.annotations[i],
            )),
{
}

/// A run steps on exactly if it is not cancelled and its budget holds; a budget
/// that is exhausted blocks it, with the reason.
pub proof fn law_budgets_block_a_run(cancelled: bool, budget: Result<(), String>)
    ensures
        after_boundary(cancelled, budget) is Step <==> !cancelled && budget is Ok,
        !cancelled && budget is Err ==> (
        after_boundary(cancelled, budget) matches LoopPhaseView::End {
            outcome,
            reason,
            cancelled: c,
        } && outcome == TerminalOutcomeView::Blocked && reason == Some(budget->Err_0@) && !c),
{
}

/// A command leads where it says. A model is sent the lowered projection, or the
/// rendered context as the user's message; a tool is called with its arguments,
/// the memory and child commands by the tools of their names; a wake is observed;
/// and a finish ends the run with its outcome.
pub proof fn law_commands_lead_where_they_say(
    context: StepContextView,
    c: StepCommand,
    e: String,
    projection: Option<ProjectionStateView>,
)
    ensures
        after_command(context, Err(e), projection) is Failed,
        c@ is ModelCall ==> (
        after_command(context, Ok(c), projection) matches LoopPhaseView::Model {
            messages,
            selected,
            rendered,
        } && {
            &&& selected == context.selected_events
            &&& rendered == context.rendered
            &&& projection matches Some(p) ==> messages == p.lowered
            &&& projection is None ==> messages.len() == 1 && messages[0].content
                == context.rendered && messages[0].role == Role::User
        }),
        c@ matches StepCommandView::ToolIntent { tool, arguments } ==> after_command(
            context,
            Ok(c),
            projection,
        ) == (LoopPhaseView::Tool { lane: Lane::Tool, tool, arguments }),
        c@ matches StepCommandView::MemoryQuery { query } ==> (
        after_command(context, Ok(c), projection) matches LoopPhaseView::Tool {
            lane,
            tool,
            arguments,
        } && lane == Lane::Memory && tool == "memory.query"@ && json::text_member(
            arguments,
            "query"@,
        ) == Some(query)),
        c@ matches StepCommandView::MemoryPropose { claim } ==> (
        after_command(context, Ok(c), projection) matches LoopPhaseView::Tool {
            lane,
            tool,
            arguments,
        } && lane == Lane::Memory && tool == "memory.propose"@ && json::member(
            arguments,
            "claim"@,
        ) == Some(claim)),
        c@ matches StepCommandView::ChildSpawn { spec } ==> after_command(
            context,
            Ok(c),
            projection,
        ) == (LoopPhaseView::Tool { lane: Lane::Child, tool: "child.spawn"@, arguments: spec }),
        c@ matches StepCommandView::ScheduleWake { kind } ==> after_command(
            context,
            Ok(c),
            projection,
        ) == (LoopPhaseView::Observe { kind }),
        c@ matches StepCommandView::Finish(outcome) ==> (
        after_command(context, Ok(c), projection) matches LoopPhaseView::End {
            outcome: o,
            reason,
            cancelled,
        } && o == outcome && reason is None && !cancelled),
{
}

/// What a step gave is what the next one sees: the model's reply, the outcome of a
/// tool in its lane, what a driver resolved or the report that the call stays
/// parked. A failure of the model that is no cancel fails the loop.
pub proof fn law_results_are_handed_on(
    c: CognitionLoopView,
    lane: Lane,
    outcome: ToolOutcomeView,
    resolved: ToolOutcomeView,
    v: Json,
    e: SessionError,
)
    ensures
        after_model(c, Ok(v)).last == Some(StepResultView::Model(v@)),
        !(e@ is Cancelled) ==> after_model(c, Err(e)).phase == LoopPhaseView::Failed(e@),
        after_parked(c, lane, outcome, Some(resolved)).last == Some(
            StepResultView::Outcome { lane, outcome: resolved },
        ),
        after_parked(c, lane, outcome, None).last == Some(
            StepResultView::Outcome { lane, outcome },
        ),
        tools::awaits_approval(outcome) ==> after_tool(c, lane, outcome).phase == (
        LoopPhaseView::Parked { lane, report: outcome }),
        !tools::awaits_approval(outcome) && outcome.classification is Denied ==> after_tool(
            c,
            lane,
            outcome,
        ).last == Some(StepResultView::Outcome { lane, outcome }),
        !tools::awaits_approval(outcome) && !(outcome.classification is Denied) ==> after_tool(
            c,
            lane,
            outcome,
        ).phase == (LoopPhaseView::Commit { lane, outcome }),
        after_model(c, Ok(v)).context == c.context,
        after_tool(c, lane, outcome).context == c.context,
{
}

} // verus!
