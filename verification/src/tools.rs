//! Tool intents and outcomes.
use vstd::prelude::*;
use vstd::string::*;
use crate::ids::{Digest, Id128};
use crate::json::{Json, JsonView};
use crate::text;
use crate::value;
use crate::value::Value;

verus! {

broadcast use value::group_views;

/// Who a call is made for.
#[derive(Debug, Clone, PartialEq, Eq)]
pub struct Principal {
    pub session: Id128,
    pub generation: u64,
    pub run: Option<u64>,
}

pub struct PrincipalView {
    pub session: Seq<char>,
    pub generation: u64,
    pub run: Option<u64>,
}

impl View for Principal {
    type V = PrincipalView;

    open spec fn view(&self) -> PrincipalView {
        PrincipalView {
            session: self.session@,
            generation: self.generation,
            run: self.run,
        }
    }
}

impl Value for Principal {
    fn copy(&self) -> (r: Self) {
        Principal {
            session: self.session.copy(),
            generation: self.generation,
            run: self.run,
        }
    }

    fn same(&self, other: &Self) -> (r: bool) {
        self.session.same(&other.session)
            && self.generation == other.generation
            && value::same_opt(&self.run, &other.run)
    }
}

/// A named value that a hook attached.
#[derive(Debug, Clone, PartialEq, Eq)]
pub struct Annotation {
    pub key: String,
    pub value: Json,
}

pub struct AnnotationView {
    pub key: Seq<char>,
    pub value: JsonView,
}

impl View for Annotation {
    type V = AnnotationView;

    open spec fn view(&self) -> AnnotationView {
        AnnotationView {
            key: self.key@,
            value: self.value@,
        }
    }
}

impl Value for Annotation {
    fn copy(&self) -> (r: Self) {
        Annotation {
            key: self.key.copy(),
            value: self.value.copy(),
        }
    }

    fn same(&self, other: &Self) -> (r: bool) {
        self.key.same(&other.key)
            && self.value.same(&other.value)
    }
}

/// A tool call as it is committed, before it is dispatched.
#[derive(Debug, Clone, PartialEq, Eq)]
pub struct ToolIntent {
    pub call_id: String,
    pub run_id: String,
    pub principal: Principal,
    pub tool: String,
    pub args: Json,
    /// The approval that the dispatch rides on.
    pub approval: Option<Digest>,
    pub origin_snapshot: Option<Digest>,
    /// The seq of the committed intent, once it is committed.
    pub intent_event: Option<u64>,
    pub annotations: Vec<Annotation>,
}

pub struct ToolIntentView {
    pub call_id: Seq<char>,
    pub run_id: Seq<char>,
    pub principal: PrincipalView,
    pub tool: Seq<char>,
    pub args: JsonView,
    pub approval: Option<Seq<char>>,
    pub origin_snapshot: Option<Seq<char>>,
    pub intent_event: Option<u64>,
    pub annotations: Seq<AnnotationView>,
}

impl View for ToolIntent {
    type V = ToolIntentView;

    open spec fn view(&self) -> ToolIntentView {
        ToolIntentView {
            call_id: self.call_id@,
            run_id: self.run_id@,
            principal: self.principal@,
            tool: self.tool@,
            args: self.args@,
            approval: value::opt_view(self.approval),
            origin_snapshot: value::opt_view(self.origin_snapshot),
            intent_event: self.intent_event,
            annotations: value::views(self.annotations@),
        }
    }
}

impl Value for ToolIntent {
    fn copy(&self) -> (r: Self) {
        ToolIntent {
            call_id: self.call_id.copy(),
            run_id: self.run_id.copy(),
            principal: self.principal.copy(),
            tool: self.tool.copy(),
            args: self.args.copy(),
            approval: value::copy_opt(&self.approval),
            origin_snapshot: value::copy_opt(&self.origin_snapshot),
            intent_event: self.intent_event,
            annotations: value::copy_vec(&self.annotations),
        }
    }

    fn same(&self, other: &Self) -> (r: bool) {
        self.call_id.same(&other.call_id)
            && self.run_id.same(&other.run_id)
            && self.principal.same(&other.principal)
            && self.tool.same(&other.tool)
            && self.args.same(&other.args)
            && value::same_opt(&self.approval, &other.approval)
            && value::same_opt(&self.origin_snapshot, &other.origin_snapshot)
            && value::same_opt(&self.intent_event, &other.intent_event)
            && value::same_vec(&self.annotations, &other.annotations)
    }
}

/// The hook that denied an intent.
#[derive(Debug, Clone, PartialEq, Eq)]
pub struct HookDenier {
    pub module_id: String,
    pub package_digest: String,
    pub hook: String,
    pub decision_digest: String,
}

pub struct HookDenierView {
    pub module_id: Seq<char>,
    pub package_digest: Seq<char>,
    pub hook: Seq<char>,
    pub decision_digest: Seq<char>,
}

impl View for HookDenier {
    type V = HookDenierView;

    open spec fn view(&self) -> HookDenierView {
        HookDenierView {
            module_id: self.module_id@,
            package_digest: self.package_digest@,
            hook: self.hook@,
            decision_digest: self.decision_digest@,
        }
    }
}

impl Value for HookDenier {
    fn copy(&self) -> (r: Self) {
        HookDenier {
            module_id: self.module_id.copy(),
            package_digest: self.package_digest.copy(),
            hook: self.hook.copy(),
            decision_digest: self.decision_digest.copy(),
        }
    }

    fn same(&self, other: &Self) -> (r: bool) {
        self.module_id.same(&other.module_id)
            && self.package_digest.same(&other.package_digest)
            && self.hook.same(&other.hook)
            && self.decision_digest.same(&other.decision_digest)
    }
}

/// How a call ended.
#[derive(Debug, Clone, PartialEq, Eq)]
pub enum Classification {
    Normal,
    Interrupted(String),
    Denied(String),
}

pub enum ClassificationView {
    Normal,
    Interrupted(Seq<char>),
    Denied(Seq<char>),
}

impl View for Classification {
    type V = ClassificationView;

    open spec fn view(&self) -> ClassificationView {
        match *self {
            Classification::Normal => ClassificationView::Normal,
            Classification::Interrupted(x) => ClassificationView::Interrupted(x@),
            Classification::Denied(x) => ClassificationView::Denied(x@),
        }
    }
}

impl Value for Classification {
    fn copy(&self) -> (r: Self) {
        match self {
            Classification::Normal => Classification::Normal,
            Classification::Interrupted(x) => Classification::Interrupted(x.copy()),
            Classification::Denied(x) => Classification::Denied(x.copy()),
        }
    }

    fn same(&self, other: &Self) -> (r: bool) {
        match (self, other) {
            (Classification::Normal, Classification::Normal) => true,
            (Classification::Interrupted(x), Classification::Interrupted(y)) => x.same(y),
            (Classification::Denied(x), Classification::Denied(y)) => x.same(y),
            _ => false,
        }
    }
}

/// What became of a tool call.
#[derive(Debug, Clone, PartialEq, Eq)]
pub struct ToolOutcome {
    pub call_id: String,
    pub tool: String,
    pub result: Json,
    pub error: Option<String>,
    pub classification: Classification,
    pub origin_snapshot: Option<Digest>,
    pub commit_snapshot: Option<Digest>,
    pub retained: Option<bool>,
    pub hook_denied: Option<HookDenier>,
}

pub struct ToolOutcomeView {
    pub call_id: Seq<char>,
    pub tool: Seq<char>,
    pub result: JsonView,
    pub error: Option<Seq<char>>,
    pub classification: ClassificationView,
    pub origin_snapshot: Option<Seq<char>>,
    pub commit_snapshot: Option<Seq<char>>,
    pub retained: Option<bool>,
    pub hook_denied: Option<HookDenierView>,
}

impl View for ToolOutcome {
    type V = ToolOutcomeView;

    open spec fn view(&self) -> ToolOutcomeView {
        ToolOutcomeView {
            call_id: self.call_id@,
            tool: self.tool@,
            result: self.result@,
            error: value::opt_view(self.error),
            classification: self.classification@,
            origin_snapshot: value::opt_view(self.origin_snapshot),
            commit_snapshot: value::opt_view(self.commit_snapshot),
            retained: self.retained,
            hook_denied: value::opt_view(self.hook_denied),
        }
    }
}

impl Value for ToolOutcome {
    fn copy(&self) -> (r: Self) {
        ToolOutcome {
            call_id: self.call_id.copy(),
            tool: self.tool.copy(),
            result: self.result.copy(),
            error: value::copy_opt(&self.error),
            classification: self.classification.copy(),
            origin_snapshot: value::copy_opt(&self.origin_snapshot),
            commit_snapshot: value::copy_opt(&self.commit_snapshot),
            retained: self.retained,
            hook_denied: value::copy_opt(&self.hook_denied),
        }
    }

    fn same(&self, other: &Self) -> (r: bool) {
        self.call_id.same(&other.call_id)
            && self.tool.same(&other.tool)
            && self.result.same(&other.result)
            && value::same_opt(&self.error, &other.error)
            && self.classification.same(&other.classification)
            && value::same_opt(&self.origin_snapshot, &other.origin_snapshot)
            && value::same_opt(&self.commit_snapshot, &other.commit_snapshot)
            && value::same_opt(&self.retained, &other.retained)
            && value::same_opt(&self.hook_denied, &other.hook_denied)
    }
}

// ---------- outcomes of an intent ----------

/// An outcome of `intent` with nothing in it but its classification.
pub open spec fn bare(
    intent: ToolIntentView,
    now: Option<Seq<char>>,
    classification: ClassificationView,
) -> ToolOutcomeView {
    ToolOutcomeView {
        call_id: intent.call_id,
        tool: intent.tool,
        result: JsonView::Null,
        error: None,
        classification,
        origin_snapshot: intent.origin_snapshot,
        commit_snapshot: now,
        retained: None,
        hook_denied: None,
    }
}

/// The intent was stopped, for `reason`.
pub open spec fn interrupted(
    intent: ToolIntentView,
    now: Option<Seq<char>>,
    reason: Seq<char>,
) -> ToolOutcomeView {
    bare(intent, now, ClassificationView::Interrupted(reason))
}

/// The call ran and gave `result`.
pub open spec fn finished(
    intent: ToolIntentView,
    now: Option<Seq<char>>,
    result: JsonView,
) -> ToolOutcomeView {
    ToolOutcomeView { result, ..bare(intent, now, ClassificationView::Normal) }
}

/// The call was rejected or failed with `error`.
pub open spec fn failed(
    intent: ToolIntentView,
    now: Option<Seq<char>>,
    error: Seq<char>,
) -> ToolOutcomeView {
    ToolOutcomeView { error: Some(error), ..bare(intent, now, ClassificationView::Normal) }
}

pub fn bare_outcome(
    intent: &ToolIntent,
    now: &Option<Digest>,
    classification: Classification,
) -> (r: ToolOutcome)
    ensures
        r@ == bare(intent@, value::opt_view(*now), classification@),
{
    ToolOutcome {
        call_id: intent.call_id.clone(),
        tool: intent.tool.clone(),
        result: Json::Null,
        error: None,
        classification,
        origin_snapshot: value::copy_opt(&intent.origin_snapshot),
        commit_snapshot: value::copy_opt(now),
        retained: None,
        hook_denied: None,
    }
}

/// The outcome of an intent that was stopped.
pub fn outcome_interrupted(intent: &ToolIntent, now: &Option<Digest>, reason: String) -> (r:
    ToolOutcome)
    ensures
        r@ == interrupted(intent@, value::opt_view(*now), reason@),
{
    bare_outcome(intent, now, Classification::Interrupted(reason))
}

/// The outcome of a call that ran.
pub fn outcome_finished(intent: &ToolIntent, now: &Option<Digest>, result: Json) -> (r: ToolOutcome)
    ensures
        r@ == finished(intent@, value::opt_view(*now), result@),
{
    let mut r = bare_outcome(intent, now, Classification::Normal);
    r.result = result;
    r
}

/// The outcome of a call that was rejected or failed: an error text, never a
/// session error, since the input is the caller's.
pub fn outcome_failed(intent: &ToolIntent, now: &Option<Digest>, error: String) -> (r: ToolOutcome)
    ensures
        r@ == failed(intent@, value::opt_view(*now), error@),
{
    let mut r = bare_outcome(intent, now, Classification::Normal);
    r.error = Some(error);
    r
}

/// Why a parked call is interrupted: it waits for the approval of this digest.
pub open spec fn parked_reason(digest: Seq<char>) -> Seq<char> {
    "awaiting approval"@ + ": "@ + digest
}

/// Whether an outcome reports that its call is parked.
pub open spec fn awaits_approval(o: ToolOutcomeView) -> bool {
    o.classification matches ClassificationView::Interrupted(reason)
        && "awaiting approval"@.is_prefix_of(reason)
}

/// The outcome of a call that parks until the user resolves the approval.
pub fn outcome_parked(intent: &ToolIntent, now: &Option<Digest>, digest: &Digest) -> (r: ToolOutcome)
    ensures
        r@ == interrupted(intent@, value::opt_view(*now), parked_reason(digest@)),
        awaits_approval(r@),
{
    let reason = text::cat3("awaiting approval", ": ", digest.text.as_str());
    assert("awaiting approval"@ =~= reason@.subrange(0, "awaiting approval"@.len() as int));
    outcome_interrupted(intent, now, reason)
}

impl ToolOutcome {
    /// Whether the call is parked and has no final outcome yet.
    pub fn awaiting_approval(&self) -> (r: bool)
        ensures
            r == awaits_approval(self@),
    {
        match &self.classification {
            Classification::Interrupted(reason) => text::begins_with(
                reason.as_str(),
                "awaiting approval",
            ),
            _ => false,
        }
    }

    /// Whether a hook denied the call.
    pub fn denied(&self) -> (r: bool)
        ensures
            r == (self@.classification is Denied),
    {
        match self.classification {
            Classification::Denied(_) => true,
            _ => false,
        }
    }
}

// ---------- consequential tools ----------

pub open spec fn is_consequential(tool: Seq<char>) -> bool {
    tool == "fs.write"@ || tool == "fs.patch"@ || tool == "process.exec"@ || tool
        == "child.spawn"@ || tool == "memory.propose"@ || tool == "memory.review"@ || tool
        == "memory.promote"@
}

/// Whether running the tool is a side effect that the committed intent must
/// outlive: it is flushed before such a tool runs.
pub fn consequential_tool(tool: &str) -> (r: bool)
    ensures
        r == is_consequential(tool@),
{
    text::same_text(tool, "fs.write") || text::same_text(tool, "fs.patch") || text::same_text(
        tool,
        "process.exec",
    ) || text::same_text(tool, "child.spawn") || text::same_text(tool, "memory.propose")
        || text::same_text(tool, "memory.review") || text::same_text(tool, "memory.promote")
}

/// Who runs a tool.
#[derive(Debug, Clone, Copy, PartialEq, Eq, Structural)]
pub enum Route {
    Native,
    MemoryQuery,
    MemoryPropose,
    MemoryReview,
    MemoryPromote,
    ChildSpawn,
}

pub open spec fn route(tool: Seq<char>) -> Route {
    if tool == "memory.query"@ {
        Route::MemoryQuery
    } else if tool == "memory.propose"@ {
        Route::MemoryPropose
    } else if tool == "memory.review"@ {
        Route::MemoryReview
    } else if tool == "memory.promote"@ {
        Route::MemoryPromote
    } else if tool == "child.spawn"@ {
        Route::ChildSpawn
    } else {
        Route::Native
    }
}

/// Who runs the tool: the memory and child tools never take the native path.
pub fn route_of(tool: &str) -> (r: Route)
    ensures
        r == route(tool@),
{
    if text::same_text(tool, "memory.query") {
        Route::MemoryQuery
    } else if text::same_text(tool, "memory.propose") {
        Route::MemoryPropose
    } else if text::same_text(tool, "memory.review") {
        Route::MemoryReview
    } else if text::same_text(tool, "memory.promote") {
        Route::MemoryPromote
    } else if text::same_text(tool, "child.spawn") {
        Route::ChildSpawn
    } else {
        Route::Native
    }
}

/// An outcome is that of its intent: its call, its tool and the snapshot it was
/// committed against, and the snapshot that is current. A call that ran has its
/// result and no error, one that failed its error and no result, and one that was
/// stopped neither, but the reason.
pub proof fn law_outcomes_are_of_their_intent(
    intent: ToolIntentView,
    now: Option<Seq<char>>,
    result: JsonView,
    t: Seq<char>,
)
    ensures
        forall|o: ToolOutcomeView|
            o == interrupted(intent, now, t) || o == finished(intent, now, result) || o == failed(
                intent,
                now,
                t,
            ) ==> #[trigger] o.call_id == intent.call_id && o.tool == intent.tool
                && o.origin_snapshot == intent.origin_snapshot && o.commit_snapshot == now
                && o.retained is None && o.hook_denied is None,
        interrupted(intent, now, t).classification == ClassificationView::Interrupted(t),
        interrupted(intent, now, t).result is Null,
        interrupted(intent, now, t).error is None,
        finished(intent, now, result).classification is Normal,
        finished(intent, now, result).result == result,
        finished(intent, now, result).error is None,
        failed(intent, now, t).classification is Normal,
        failed(intent, now, t).result is Null,
        failed(intent, now, t).error == Some(t),
{
}

/// A parked call says which approval it waits for, and only an interrupted
/// outcome can say that it waits.
pub proof fn law_parked_outcomes_name_their_approval(
    intent: ToolIntentView,
    now: Option<Seq<char>>,
    digest: Seq<char>,
    other: Seq<char>,
    o: ToolOutcomeView,
)
    ensures
        awaits_approval(interrupted(intent, now, parked_reason(digest))),
        parked_reason(digest) == parked_reason(other) ==> digest == other,
        awaits_approval(o) ==> o.classification is Interrupted,
        !awaits_approval(interrupted(intent, now, "approval denied by user"@)),
{
    let r = parked_reason(digest);
    let n = ("awaiting approval"@ + ": "@).len() as int;
    assert("awaiting approval"@ =~= r.subrange(0, "awaiting approval"@.len() as int));
    assert(r.skip(n) =~= digest);
    assert(parked_reason(other).skip(n) =~= other);
    reveal_strlit("awaiting approval");
    reveal_strlit("approval denied by user");
    assert("awaiting approval"@[1] == 'w' && "approval denied by user"@[1] == 'p');
    if awaits_approval(interrupted(intent, now, "approval denied by user"@)) {
        let s = "approval denied by user"@;
        assert(s.subrange(0, "awaiting approval"@.len() as int)[1] == s[1]);
    }
}

/// What changes files, runs a program, spawns a child or changes memory is
/// consequential, and nothing else is. The memory tools and the spawn of a child
/// are run by the session, every other tool natively.
pub proof fn law_tools_are_routed_by_name(tool: Seq<char>)
    ensures
        is_consequential("fs.write"@) && is_consequential("fs.patch"@) && is_consequential(
            "process.exec"@,
        ) && is_consequential("child.spawn"@) && is_consequential("memory.propose"@)
            && is_consequential("memory.review"@) && is_consequential("memory.promote"@),
        is_consequential(tool) ==> tool == "fs.write"@ || tool == "fs.patch"@ || tool
            == "process.exec"@ || tool == "child.spawn"@ || tool == "memory.propose"@ || tool
            == "memory.review"@ || tool == "memory.promote"@,
        route("memory.query"@) == Route::MemoryQuery,
        route("memory.propose"@) == Route::MemoryPropose,
        route("memory.review"@) == Route::MemoryReview,
        route("memory.promote"@) == Route::MemoryPromote,
        route("child.spawn"@) == Route::ChildSpawn,
        route(tool) == Route::Native <==> tool != "memory.query"@ && tool != "memory.propose"@
            && tool != "memory.review"@ && tool != "memory.promote"@ && tool != "child.spawn"@,
{
    reveal_strlit("memory.query");
    reveal_strlit("memory.propose");
    reveal_strlit("memory.review");
    reveal_strlit("memory.promote");
    reveal_strlit("child.spawn");
    assert("memory.query"@.len() == 12 && "memory.propose"@.len() == 14);
    assert("memory.review"@.len() == 13 && "memory.promote"@.len() == 14);
    assert("child.spawn"@.len() == 11);
    assert("memory.propose"@[12] == 's' && "memory.promote"@[12] == 't');
}

} // verus!
