//! Lifecycle hooks: parsing what a hook returned, the ordered bindings of
//! each kind, and their evaluation.
//!
//! Hooks advise: they continue or deny, and may annotate. A hook that fails
//! degrades its binding alone, and the default of its kind applies: a tool
//! intent is denied, a turn goes on.
use vstd::prelude::*;
use vstd::string::*;
use vstd::utf8::*;
use crate::contribution;
use crate::contribution::HookKind;
use crate::event;
use crate::event::{Event, EventView};
use crate::ids::{Digest, Id128};
use crate::json;
use crate::json::{Json, JsonView};
use crate::text;
use crate::tools::{Annotation, AnnotationView};
use crate::value;
use crate::value::Value;

verus! {

broadcast use value::group_views;

/// The longest deny reason that is kept.
pub const DENY_REASON_MAX: usize = 240;

/// The longest annotation key.
pub const ANNOTATION_KEY_MAX: usize = 64;

/// The longest annotation text.
pub const ANNOTATION_VALUE_MAX: usize = 512;

/// The reason that is recorded for every hook denial.
pub open spec fn denied_reason() -> Seq<char> {
    "denied by hook"@
}

/// The reason that is recorded for every hook denial.
pub fn denied_reason_text() -> (r: String)
    ensures
        r@ == denied_reason(),
{
    "denied by hook".to_owned()
}

/// How a hook call failed.
#[derive(Debug, Clone, Copy, PartialEq, Eq, Structural)]
pub enum HookError {
    Trap,
    Timeout,
    Invalid,
    Gone,
}

/// What a hook decided. The reason stays in memory: records carry a digest of
/// the decision.
#[derive(Debug, Clone, PartialEq, Eq)]
pub enum Decision {
    Continue,
    Deny { reason: String },
}

pub enum DecisionView {
    Continue,
    Deny { reason: Seq<char> },
}

impl View for Decision {
    type V = DecisionView;

    open spec fn view(&self) -> DecisionView {
        match *self {
            Decision::Continue => DecisionView::Continue,
            Decision::Deny { reason } => DecisionView::Deny { reason: reason@ },
        }
    }
}

impl Value for Decision {
    fn copy(&self) -> (r: Self) {
        match self {
            Decision::Continue => Decision::Continue,
            Decision::Deny { reason } => Decision::Deny { reason: reason.copy() },
        }
    }

    fn same(&self, other: &Self) -> (r: bool) {
        match (self, other) {
            (Decision::Continue, Decision::Continue) => true,
            (Decision::Deny { reason }, Decision::Deny { reason: reason_other }) => reason.same(reason_other),
            _ => false,
        }
    }
}

/// The document that a decision's digest is taken of.
pub open spec fn decision_json(d: DecisionView) -> JsonView {
    match d {
        DecisionView::Continue => JsonView::Object(
            json::fields1(json::fv("decision"@, JsonView::Text("continue"@))),
        ),
        DecisionView::Deny { reason } => JsonView::Object(
            json::fields2(
                json::fv("decision"@, JsonView::Text("deny"@)),
                json::fv("reason"@, JsonView::Text(reason)),
            ),
        ),
    }
}

/// The bytes that a decision's digest is taken of.
pub open spec fn decision_bytes(d: DecisionView) -> Seq<u8> {
    encode_utf8(json::json_text(decision_json(d)))
}

impl Decision {
    /// The canonical bytes of the decision.
    pub fn canonical_bytes(&self) -> (r: Vec<u8>)
        ensures
            r@ == decision_bytes(self@),
    {
        let doc = match self {
            Decision::Continue => json::record(
                json::field(json::no_fields(), "decision", json::text_json("continue")),
            ),
            Decision::Deny { reason } => {
                let f = json::field(json::no_fields(), "decision", json::text_json("deny"));
                json::record(json::field(f, "reason", json::text_json(reason.as_str())))
            },
        };
        json::render(&doc).as_str().as_bytes_vec()
    }

    /// The digest that records carry in place of the decision.
    pub fn digest<F: Fn(Vec<u8>) -> Digest>(&self, digest_of: &F) -> (r: Digest)
        requires
            forall|b: Vec<u8>| #[trigger] call_requires(*digest_of, (b,)),
        ensures
            exists|b: Vec<u8>|
                b@ == decision_bytes(self@) && #[trigger] call_ensures(*digest_of, (b,), r),
    {
        let bytes = self.canonical_bytes();
        let r = (*digest_of)(bytes);
        assert(call_ensures(*digest_of, (bytes,), r));
        r
    }
}

/// What a hook returned.
#[derive(Debug, Clone, PartialEq, Eq)]
pub struct HookDecision {
    pub decision: Decision,
    pub annotations: Vec<Annotation>,
}

pub struct HookDecisionView {
    pub decision: DecisionView,
    pub annotations: Seq<AnnotationView>,
}

impl View for HookDecision {
    type V = HookDecisionView;

    open spec fn view(&self) -> HookDecisionView {
        HookDecisionView {
            decision: self.decision@,
            annotations: value::views(self.annotations@),
        }
    }
}

// ---------- parsing ----------

/// The first `max` characters.
pub open spec fn shortened(t: Seq<char>, max: nat) -> Seq<char> {
    if t.len() <= max {
        t
    } else {
        t.take(max as int)
    }
}

fn shorten(t: &str, max: usize) -> (r: String)
    ensures
        r@ == shortened(t@, max as nat),
{
    let n: usize = t.unicode_len();
    if n <= max {
        return t.to_owned();
    }
    let head = t.substring_char(0, max);
    assert(t@.subrange(0, max as int) =~= t@.take(max as int));
    head.to_owned()
}

/// The decision that a returned document states.
pub open spec fn stated_decision(v: JsonView) -> Option<DecisionView> {
    match json::text_member(v, "decision"@) {
        Some(t) => if t == "continue"@ {
            Some(DecisionView::Continue)
        } else if t == "deny"@ {
            Some(
                DecisionView::Deny {
                    reason: match json::text_member(v, "reason"@) {
                        Some(r) => shortened(r, DENY_REASON_MAX as nat),
                        None => "denied by hook"@,
                    },
                },
            )
        } else {
            None
        },
        None => None,
    }
}

/// The annotation that an item states: a keyed value, its texts shortened.
pub open spec fn stated_annotation(v: JsonView) -> Option<AnnotationView> {
    match (json::text_member(v, "key"@), json::member(v, "value"@)) {
        (Some(key), Some(x)) => Some(
            AnnotationView {
                key: shortened(key, ANNOTATION_KEY_MAX as nat),
                value: match x {
                    JsonView::Text(t) => JsonView::Text(
                        shortened(t, ANNOTATION_VALUE_MAX as nat),
                    ),
                    other => other,
                },
            },
        ),
        _ => None,
    }
}

/// The annotations of all items, if every item states one.
pub open spec fn stated_annotations(items: Seq<JsonView>) -> Option<Seq<AnnotationView>>
    decreases items.len(),
{
    if items.len() == 0 {
        Some(Seq::empty())
    } else {
        match (stated_annotations(items.drop_last()), stated_annotation(items.last())) {
            (Some(rest), Some(a)) => Some(rest.push(a)),
            _ => None,
        }
    }
}

/// What a returned document says: a decision, and annotations unless they are
/// absent or null.
pub open spec fn stated(v: JsonView) -> Option<HookDecisionView> {
    match stated_decision(v) {
        Some(decision) => match json::member(v, "annotations"@) {
            None => Some(HookDecisionView { decision, annotations: Seq::empty() }),
            Some(JsonView::Null) => Some(HookDecisionView { decision, annotations: Seq::empty() }),
            Some(JsonView::List(items)) => match stated_annotations(items) {
                Some(annotations) => Some(HookDecisionView { decision, annotations }),
                None => None,
            },
            Some(_) => None,
        },
        None => None,
    }
}

/// What a hook's raw return says, if it is a document that says anything.
pub open spec fn returned(raw: Seq<char>) -> Option<HookDecisionView> {
    match json::parsed(raw) {
        Some(v) => stated(v),
        None => None,
    }
}

proof fn lemma_no_annotations_stays(items: Seq<JsonView>, n: int)
    requires
        0 <= n <= items.len(),
        stated_annotations(items.take(n)) is None,
    ensures
        stated_annotations(items) is None,
    decreases items.len() - n,
{
    if n == items.len() {
        assert(items.take(n) =~= items);
    } else {
        assert(items.take(n + 1).drop_last() =~= items.take(n));
        lemma_no_annotations_stays(items, n + 1);
    }
}

fn parse_annotation(item: &Json) -> (r: Option<Annotation>)
    ensures
        value::opt_view(r) == stated_annotation(item@),
{
    match (item.get_text("key"), item.get("value")) {
        (Some(key), Some(x)) => {
            let capped = match x {
                Json::Text(t) => Json::Text(shorten(t.as_str(), ANNOTATION_VALUE_MAX)),
                other => other.copy(),
            };
            Some(Annotation { key: shorten(key.as_str(), ANNOTATION_KEY_MAX), value: capped })
        },
        _ => None,
    }
}

fn parse_annotations(items: &Vec<Json>) -> (r: Option<Vec<Annotation>>)
    ensures
        match r {
            Some(all) => stated_annotations(value::views(items@)) == Some(value::views(all@)),
            None => stated_annotations(value::views(items@)) is None,
        },
{
    let ghost all = value::views(items@);
    let mut out: Vec<Annotation> = Vec::new();
    let mut i: usize = 0;
    assert(all.take(0) =~= Seq::empty());
    while i < items.len()
        invariant
            i <= items.len(),
            all == value::views(items@),
            stated_annotations(all.take(i as int)) == Some(value::views(out@)),
        decreases items.len() - i,
    {
        proof {
            assert(all.take(i + 1).drop_last() =~= all.take(i as int));
            assert(all.take(i + 1).last() == items@[i as int]@);
        }
        match parse_annotation(&items[i]) {
            Some(a) => out.push(a),
            None => {
                proof {
                    lemma_no_annotations_stays(all, i + 1);
                }
                return None;
            },
        }
        i = i + 1;
    }
    assert(all.take(i as int) =~= all);
    Some(out)
}

impl HookDecision {
    /// Reads what a document says; `None` where it says nothing valid.
    pub fn of_document(v: &Json) -> (r: Option<HookDecision>)
        ensures
            value::opt_view(r) == stated(v@),
    {
        let decision = match v.get_text("decision") {
            Some(t) => if text::same_text(t.as_str(), "continue") {
                Decision::Continue
            } else if text::same_text(t.as_str(), "deny") {
                Decision::Deny {
                    reason: match v.get_text("reason") {
                        Some(reason) => shorten(reason.as_str(), DENY_REASON_MAX),
                        None => "denied by hook".to_owned(),
                    },
                }
            } else {
                return None;
            },
            None => return None,
        };
        match v.get("annotations") {
            None => Some(HookDecision { decision, annotations: Vec::new() }),
            Some(Json::Null) => Some(HookDecision { decision, annotations: Vec::new() }),
            Some(Json::List(items)) => {
                proof {
                    json::lemma_list_view(items@);
                }
                match parse_annotations(items) {
                    Some(annotations) => Some(HookDecision { decision, annotations }),
                    None => None,
                }
            },
            Some(_) => None,
        }
    }

    /// Parses a hook's raw return. Anything malformed is an invalid return.
    pub fn parse(raw: &str) -> (r: Result<HookDecision, HookError>)
        ensures
            match r {
                Ok(d) => returned(raw@) == Some(d@),
                Err(e) => returned(raw@) is None && e == HookError::Invalid,
            },
    {
        match json::read(raw) {
            Some(v) => match HookDecision::of_document(&v) {
                Some(d) => Ok(d),
                None => Err(HookError::Invalid),
            },
            None => Err(HookError::Invalid),
        }
    }
}

// ---------- bindings ----------

/// A hook bound to the module generation that answers it.
#[derive(Debug, Clone, PartialEq, Eq)]
pub struct HookBinding {
    pub module_id: Id128,
    pub package_digest: Digest,
    pub generation: u64,
    pub name: String,
    pub hook: HookKind,
    pub entry: String,
    /// A fault degraded it: its kind's default applies until it is rebound.
    pub degraded: bool,
    pub faults: u64,
    /// The seq of the record of its last degradation.
    pub last_fault_seq: Option<u64>,
}

pub struct HookBindingView {
    pub module_id: Seq<char>,
    pub package_digest: Seq<char>,
    pub generation: u64,
    pub name: Seq<char>,
    pub hook: HookKind,
    pub entry: Seq<char>,
    pub degraded: bool,
    pub faults: u64,
    pub last_fault_seq: Option<u64>,
}

impl View for HookBinding {
    type V = HookBindingView;

    open spec fn view(&self) -> HookBindingView {
        HookBindingView {
            module_id: self.module_id@,
            package_digest: self.package_digest@,
            generation: self.generation,
            name: self.name@,
            hook: self.hook,
            entry: self.entry@,
            degraded: self.degraded,
            faults: self.faults,
            last_fault_seq: self.last_fault_seq,
        }
    }
}

impl Value for HookBinding {
    fn copy(&self) -> (r: Self) {
        HookBinding {
            module_id: self.module_id.copy(),
            package_digest: self.package_digest.copy(),
            generation: self.generation,
            name: self.name.copy(),
            hook: self.hook,
            entry: self.entry.copy(),
            degraded: self.degraded,
            faults: self.faults,
            last_fault_seq: self.last_fault_seq,
        }
    }

    fn same(&self, other: &Self) -> (r: bool) {
        self.module_id.same(&other.module_id)
            && self.package_digest.same(&other.package_digest)
            && self.generation == other.generation
            && self.name.same(&other.name)
            && self.hook == other.hook
            && self.entry.same(&other.entry)
            && self.degraded == other.degraded
            && self.faults == other.faults
            && value::same_opt(&self.last_fault_seq, &other.last_fault_seq)
    }
}

/// A fault, with the binding as the fault left it.
#[derive(Debug, Clone, PartialEq, Eq)]
pub struct HookFault {
    /// Its place among the bindings of its kind.
    pub index: usize,
    pub binding: HookBinding,
    pub error: HookError,
    /// Whether this fault degraded the binding.
    pub transitioned: bool,
}

pub struct HookFaultView {
    pub index: nat,
    pub binding: HookBindingView,
    pub error: HookError,
    pub transitioned: bool,
}

impl View for HookFault {
    type V = HookFaultView;

    open spec fn view(&self) -> HookFaultView {
        HookFaultView {
            index: self.index as nat,
            binding: self.binding@,
            error: self.error,
            transitioned: self.transitioned,
        }
    }
}

impl Value for HookFault {
    fn copy(&self) -> (r: Self) {
        HookFault {
            index: self.index,
            binding: self.binding.copy(),
            error: self.error,
            transitioned: self.transitioned,
        }
    }

    fn same(&self, other: &Self) -> (r: bool) {
        self.index == other.index
            && self.binding.same(&other.binding)
            && self.error == other.error
            && self.transitioned == other.transitioned
    }
}

/// The outcome of evaluating one kind.
#[derive(Debug, Clone, PartialEq, Eq)]
pub struct HookEvaluation {
    pub decision: Decision,
    pub annotations: Vec<Annotation>,
    pub denier: Option<HookBinding>,
    pub faults: Vec<HookFault>,
}

pub struct HookEvaluationView {
    pub decision: DecisionView,
    pub annotations: Seq<AnnotationView>,
    pub denier: Option<HookBindingView>,
    pub faults: Seq<HookFaultView>,
}

impl View for HookEvaluation {
    type V = HookEvaluationView;

    open spec fn view(&self) -> HookEvaluationView {
        HookEvaluationView {
            decision: self.decision@,
            annotations: value::views(self.annotations@),
            denier: value::opt_view(self.denier),
            faults: value::views(self.faults@),
        }
    }
}

/// The default of a kind, for a hook that cannot be asked: an intent gate
/// that is unavailable never permits.
pub open spec fn default_decision(kind: HookKind) -> DecisionView {
    match kind {
        HookKind::OnToolIntent => DecisionView::Deny {
            reason: "denied: on_tool_intent hook unavailable"@,
        },
        HookKind::OnTurnStart => DecisionView::Continue,
    }
}

impl HookEvaluation {
    /// The built-in decision for a binding that faulted or is degraded.
    pub fn default_for(kind: HookKind) -> (r: Decision)
        ensures
            r@ == default_decision(kind),
    {
        match kind {
            HookKind::OnToolIntent => Decision::Deny {
                reason: "denied: on_tool_intent hook unavailable".to_owned(),
            },
            HookKind::OnTurnStart => Decision::Continue,
        }
    }

    /// The outcome where no hook is bound: the path is unmodified.
    pub fn default_only() -> (r: Self)
        ensures
            r@ == (HookEvaluationView {
                decision: DecisionView::Continue,
                annotations: Seq::empty(),
                denier: None,
                faults: Seq::empty(),
            }),
    {
        HookEvaluation {
            decision: Decision::Continue,
            annotations: Vec::new(),
            denier: None,
            faults: Vec::new(),
        }
    }
}

/// The bindings of each kind, in the order they are asked.
#[derive(Debug, Clone, PartialEq, Eq)]
pub struct HookSet {
    on_turn_start: Vec<HookBinding>,
    on_tool_intent: Vec<HookBinding>,
}

pub struct HookSetView {
    pub on_turn_start: Seq<HookBindingView>,
    pub on_tool_intent: Seq<HookBindingView>,
}

impl View for HookSet {
    type V = HookSetView;

    closed spec fn view(&self) -> HookSetView {
        HookSetView {
            on_turn_start: value::views(self.on_turn_start@),
            on_tool_intent: value::views(self.on_tool_intent@),
        }
    }
}

/// The bindings of one kind.
pub open spec fn bound(set: HookSetView, kind: HookKind) -> Seq<HookBindingView> {
    match kind {
        HookKind::OnTurnStart => set.on_turn_start,
        HookKind::OnToolIntent => set.on_tool_intent,
    }
}

/// The set with other bindings for one kind.
pub open spec fn rebound(
    set: HookSetView,
    kind: HookKind,
    bindings: Seq<HookBindingView>,
) -> HookSetView {
    match kind {
        HookKind::OnTurnStart => HookSetView { on_turn_start: bindings, ..set },
        HookKind::OnToolIntent => HookSetView { on_tool_intent: bindings, ..set },
    }
}

/// An evaluation under way: the next binding to ask, and what the others said.
#[derive(Debug, Clone, PartialEq, Eq)]
pub struct HookRun {
    pub kind: HookKind,
    pub index: usize,
    pub annotations: Vec<Annotation>,
    pub faults: Vec<HookFault>,
}

pub struct HookRunView {
    pub kind: HookKind,
    pub index: nat,
    pub annotations: Seq<AnnotationView>,
    pub faults: Seq<HookFaultView>,
}

impl View for HookRun {
    type V = HookRunView;

    open spec fn view(&self) -> HookRunView {
        HookRunView {
            kind: self.kind,
            index: self.index as nat,
            annotations: value::views(self.annotations@),
            faults: value::views(self.faults@),
        }
    }
}

/// What an evaluation needs next.
#[derive(Debug, Clone, PartialEq, Eq)]
pub enum HookStep {
    /// Call the binding that the run stands at.
    Call(HookRun),
    Done(HookEvaluation),
}

pub enum HookStepView {
    Call(HookRunView),
    Done(HookEvaluationView),
}

impl View for HookStep {
    type V = HookStepView;

    open spec fn view(&self) -> HookStepView {
        match *self {
            HookStep::Call(x) => HookStepView::Call(x@),
            HookStep::Done(x) => HookStepView::Done(x@),
        }
    }
}

/// The evaluation ended by a binding's decision.
pub open spec fn ended(
    run: HookRunView,
    decision: DecisionView,
    denier: Option<HookBindingView>,
) -> HookStepView {
    HookStepView::Done(
        HookEvaluationView { decision, annotations: run.annotations, denier, faults: run.faults },
    )
}

/// Where a run stops next: at a binding that can be asked, at a degraded one
/// whose default denies, or at the end.
pub open spec fn settled(bindings: Seq<HookBindingView>, run: HookRunView) -> HookStepView
    decreases bindings.len() - run.index,
{
    if run.index >= bindings.len() {
        ended(run, DecisionView::Continue, None)
    } else if !bindings[run.index as int].degraded {
        HookStepView::Call(run)
    } else if default_decision(run.kind) is Deny {
        ended(run, default_decision(run.kind), Some(bindings[run.index as int]))
    } else {
        settled(bindings, HookRunView { index: run.index + 1, ..run })
    }
}

/// The binding after a fault.
pub open spec fn faulted(b: HookBindingView) -> HookBindingView {
    HookBindingView { degraded: true, faults: (b.faults + 1) as u64, ..b }
}

/// What a hook call gave, as far as it counts.
pub open spec fn answer_of(answer: Result<String, HookError>) -> Result<
    HookDecisionView,
    HookError,
> {
    match answer {
        Ok(raw) => match returned(raw@) {
            Some(d) => Ok(d),
            None => Err(HookError::Invalid),
        },
        Err(e) => Err(e),
    }
}

/// The bindings after an answer.
pub open spec fn bindings_after(
    bindings: Seq<HookBindingView>,
    run: HookRunView,
    answer: Result<HookDecisionView, HookError>,
) -> Seq<HookBindingView> {
    let b = bindings[run.index as int];
    match answer {
        Ok(_) => bindings.update(run.index as int, HookBindingView { degraded: false, ..b }),
        Err(_) => bindings.update(run.index as int, faulted(b)),
    }
}

/// The run after an answer, at the same binding.
pub open spec fn run_after(
    bindings: Seq<HookBindingView>,
    run: HookRunView,
    answer: Result<HookDecisionView, HookError>,
) -> HookRunView {
    let b = bindings[run.index as int];
    match answer {
        Ok(d) => HookRunView { annotations: run.annotations + d.annotations, ..run },
        Err(error) => HookRunView {
            faults: run.faults.push(
                HookFaultView {
                    index: run.index,
                    binding: faulted(b),
                    error,
                    transitioned: !b.degraded,
                },
            ),
            ..run
        },
    }
}

/// The decision that an answer comes to.
pub open spec fn decided(kind: HookKind, answer: Result<HookDecisionView, HookError>) -> DecisionView {
    match answer {
        Ok(d) => d.decision,
        Err(_) => default_decision(kind),
    }
}

/// What an evaluation does with an answer: a deny ends it, else it goes on
/// with the next binding.
pub open spec fn answered(
    bindings: Seq<HookBindingView>,
    run: HookRunView,
    answer: Result<HookDecisionView, HookError>,
) -> HookStepView {
    let next = bindings_after(bindings, run, answer);
    let then = run_after(bindings, run, answer);
    let decision = decided(run.kind, answer);
    if decision is Deny {
        ended(then, decision, Some(next[run.index as int]))
    } else {
        settled(next, HookRunView { index: run.index + 1, ..then })
    }
}

/// The start of an evaluation.
pub open spec fn begun(kind: HookKind) -> HookRunView {
    HookRunView { kind, index: 0, annotations: Seq::empty(), faults: Seq::empty() }
}

fn settle(bindings: &Vec<HookBinding>, run: HookRun) -> (r: HookStep)
    ensures
        r@ == settled(value::views(bindings@), run@),
{
    let ghost all = value::views(bindings@);
    let mut at = run;
    while at.index < bindings.len()
        invariant
            all == value::views(bindings@),
            settled(all, run@) == settled(all, at@),
        decreases bindings.len() - at.index,
    {
        let b = &bindings[at.index];
        assert(all[at.index as int] == b@);
        if !b.degraded {
            return HookStep::Call(at);
        }
        match HookEvaluation::default_for(at.kind) {
            Decision::Deny { reason } => {
                return HookStep::Done(
                    HookEvaluation {
                        decision: Decision::Deny { reason },
                        annotations: at.annotations,
                        denier: Some(b.copy()),
                        faults: at.faults,
                    },
                );
            },
            Decision::Continue => {},
        }
        at.index = at.index + 1;
    }
    HookStep::Done(
        HookEvaluation {
            decision: Decision::Continue,
            annotations: at.annotations,
            denier: None,
            faults: at.faults,
        },
    )
}

fn take_answer(bindings: &mut Vec<HookBinding>, run: HookRun, answer: Result<String, HookError>) -> (r: HookStep)
    requires
        run.index < old(bindings).len(),
        old(bindings)@[run.index as int].faults < u64::MAX,
    ensures
        value::views(final(bindings)@) == bindings_after(
            value::views(old(bindings)@),
            run@,
            answer_of(answer),
        ),
        r@ == answered(value::views(old(bindings)@), run@, answer_of(answer)),
{
    let ghost before = value::views(bindings@);
    let ghost start = run@;
    let ghost reply = answer_of(answer);
    let i: usize = run.index;
    let kind = run.kind;
    assert(before[i as int] == bindings@[i as int]@);
    let parsed = match answer {
        Ok(raw) => HookDecision::parse(raw.as_str()),
        Err(e) => Err(e),
    };
    let mut run = run;
    let mut b = bindings[i].copy();
    let decision = match parsed {
        Ok(d) => {
            b.degraded = false;
            let mut notes = d.annotations;
            let ghost said = value::views(notes@);
            run.annotations.append(&mut notes);
            assert(value::views(run.annotations@) =~= start.annotations + said);
            bindings.set(i, b);
            d.decision
        },
        Err(error) => {
            let transitioned = !b.degraded;
            b.degraded = true;
            b.faults = b.faults + 1;
            run.faults.push(HookFault { index: i, binding: b.copy(), error, transitioned });
            bindings.set(i, b);
            HookEvaluation::default_for(kind)
        },
    };
    assert(value::views(bindings@) =~= bindings_after(before, start, reply));
    assert(run@ == run_after(before, start, reply));
    match decision {
        Decision::Deny { reason } => {
            assert(value::views(bindings@)[i as int] == bindings@[i as int]@);
            HookStep::Done(
                HookEvaluation {
                    decision: Decision::Deny { reason },
                    annotations: run.annotations,
                    denier: Some(bindings[i].copy()),
                    faults: run.faults,
                },
            )
        },
        Decision::Continue => {
            run.index = run.index + 1;
            settle(bindings, run)
        },
    }
}

/// A contributed hook, with the generation that now answers it.
#[derive(Debug, Clone, PartialEq, Eq)]
pub struct HookCandidate {
    pub name: String,
    pub entry: String,
    pub generation: Option<u64>,
}

pub struct HookCandidateView {
    pub name: Seq<char>,
    pub entry: Seq<char>,
    pub generation: Option<u64>,
}

impl View for HookCandidate {
    type V = HookCandidateView;

    open spec fn view(&self) -> HookCandidateView {
        HookCandidateView {
            name: self.name@,
            entry: self.entry@,
            generation: self.generation,
        }
    }
}

impl Value for HookCandidate {
    fn copy(&self) -> (r: Self) {
        HookCandidate {
            name: self.name.copy(),
            entry: self.entry.copy(),
            generation: self.generation,
        }
    }

    fn same(&self, other: &Self) -> (r: bool) {
        self.name.same(&other.name)
            && self.entry.same(&other.entry)
            && value::same_opt(&self.generation, &other.generation)
    }
}

/// A live module generation.
#[derive(Debug, Clone, PartialEq, Eq)]
pub struct LiveModule {
    pub module_id: Id128,
    pub generation: u64,
    pub package: Digest,
}

pub struct LiveModuleView {
    pub module_id: Seq<char>,
    pub generation: u64,
    pub package: Seq<char>,
}

impl View for LiveModule {
    type V = LiveModuleView;

    open spec fn view(&self) -> LiveModuleView {
        LiveModuleView {
            module_id: self.module_id@,
            generation: self.generation,
            package: self.package@,
        }
    }
}

impl Value for LiveModule {
    fn copy(&self) -> (r: Self) {
        LiveModule {
            module_id: self.module_id.copy(),
            generation: self.generation,
            package: self.package.copy(),
        }
    }

    fn same(&self, other: &Self) -> (r: bool) {
        self.module_id.same(&other.module_id)
            && self.generation == other.generation
            && self.package.same(&other.package)
    }
}

/// The module of a generation; the last one listed counts.
pub open spec fn module_of(live: Seq<LiveModuleView>, generation: u64) -> Option<LiveModuleView>
    decreases live.len(),
{
    if live.len() == 0 {
        None
    } else if live.last().generation == generation {
        Some(live.last())
    } else {
        module_of(live.drop_last(), generation)
    }
}

/// Two bindings are the same hook of the same generation.
pub open spec fn same_binding(a: HookBindingView, b: HookBindingView) -> bool {
    a.module_id == b.module_id && a.generation == b.generation && a.hook == b.hook && a.name
        == b.name && a.entry == b.entry
}

/// The first old binding that is the same as `b`.
pub open spec fn survivor(old: Seq<HookBindingView>, b: HookBindingView) -> Option<HookBindingView>
    decreases old.len(),
{
    if old.len() == 0 {
        None
    } else if same_binding(old[0], b) {
        Some(old[0])
    } else {
        survivor(old.drop_first(), b)
    }
}

/// A binding that is made anew keeps the state of the one it was before.
pub open spec fn carried(old: Seq<HookBindingView>, b: HookBindingView) -> HookBindingView {
    match survivor(old, b) {
        Some(p) => HookBindingView {
            degraded: p.degraded,
            faults: p.faults,
            last_fault_seq: p.last_fault_seq,
            ..b
        },
        None => b,
    }
}

/// The binding of a candidate, if a live generation answers it.
pub open spec fn binding_of(
    kind: HookKind,
    c: HookCandidateView,
    live: Seq<LiveModuleView>,
) -> Option<HookBindingView> {
    match c.generation {
        Some(generation) => match module_of(live, generation) {
            Some(m) => Some(
                HookBindingView {
                    module_id: m.module_id,
                    package_digest: m.package,
                    generation,
                    name: c.name,
                    hook: kind,
                    entry: c.entry,
                    degraded: false,
                    faults: 0,
                    last_fault_seq: None,
                },
            ),
            None => None,
        },
        None => None,
    }
}

/// The bindings of a kind, made anew in the order of the candidates.
pub open spec fn made_anew(
    kind: HookKind,
    candidates: Seq<HookCandidateView>,
    live: Seq<LiveModuleView>,
    old: Seq<HookBindingView>,
) -> Seq<HookBindingView>
    decreases candidates.len(),
{
    if candidates.len() == 0 {
        Seq::empty()
    } else {
        let rest = made_anew(kind, candidates.drop_last(), live, old);
        match binding_of(kind, candidates.last(), live) {
            Some(b) => rest.push(carried(old, b)),
            None => rest,
        }
    }
}

fn find_module(live: &Vec<LiveModule>, generation: u64) -> (r: Option<LiveModule>)
    ensures
        value::opt_view(r) == module_of(value::views(live@), generation),
{
    let ghost all = value::views(live@);
    let mut i: usize = live.len();
    assert(all.take(i as int) =~= all);
    while i > 0
        invariant
            i <= live.len(),
            all == value::views(live@),
            module_of(all, generation) == module_of(all.take(i as int), generation),
        decreases i,
    {
        i = i - 1;
        proof {
            assert(all.take(i + 1).last() == live@[i as int]@);
            assert(all.take(i + 1).drop_last() =~= all.take(i as int));
        }
        if live[i].generation == generation {
            return Some(live[i].copy());
        }
    }
    None
}

fn same_hook(a: HookKind, b: HookKind) -> (r: bool)
    ensures
        r == (a == b),
{
    a == b
}

fn carry(old: &Vec<HookBinding>, b: HookBinding) -> (r: HookBinding)
    ensures
        r@ == carried(value::views(old@), b@),
{
    let ghost all = value::views(old@);
    let mut i: usize = 0;
    assert(all.skip(0) =~= all);
    while i < old.len()
        invariant
            i <= old.len(),
            all == value::views(old@),
            survivor(all, b@) == survivor(all.skip(i as int), b@),
        decreases old.len() - i,
    {
        proof {
            assert(all.skip(i as int)[0] == old@[i as int]@);
            assert(all.skip(i as int).drop_first() =~= all.skip(i + 1));
        }
        let p = &old[i];
        if p.module_id.same(&b.module_id) && p.generation == b.generation && same_hook(
            p.hook,
            b.hook,
        ) && p.name.same(&b.name) && p.entry.same(&b.entry) {
            let mut kept = b;
            kept.degraded = p.degraded;
            kept.faults = p.faults;
            kept.last_fault_seq = p.last_fault_seq;
            return kept;
        }
        i = i + 1;
    }
    b
}

fn make_anew(
    kind: HookKind,
    candidates: &Vec<HookCandidate>,
    live: &Vec<LiveModule>,
    old: &Vec<HookBinding>,
) -> (r: Vec<HookBinding>)
    ensures
        value::views(r@) == made_anew(
            kind,
            value::views(candidates@),
            value::views(live@),
            value::views(old@),
        ),
{
    let ghost all = value::views(candidates@);
    let mut out: Vec<HookBinding> = Vec::new();
    let mut i: usize = 0;
    assert(all.take(0) =~= Seq::empty());
    while i < candidates.len()
        invariant
            i <= candidates.len(),
            all == value::views(candidates@),
            value::views(out@) == made_anew(
                kind,
                all.take(i as int),
                value::views(live@),
                value::views(old@),
            ),
        decreases candidates.len() - i,
    {
        let c = &candidates[i];
        proof {
            assert(all.take(i + 1).last() == c@);
            assert(all.take(i + 1).drop_last() =~= all.take(i as int));
        }
        if let Some(generation) = c.generation {
            if let Some(m) = find_module(live, generation) {
                let b = HookBinding {
                    module_id: m.module_id,
                    package_digest: m.package,
                    generation,
                    name: c.name.clone(),
                    hook: kind,
                    entry: c.entry.clone(),
                    degraded: false,
                    faults: 0,
                    last_fault_seq: None,
                };
                out.push(carry(old, b));
            }
        }
        i = i + 1;
    }
    assert(all.take(i as int) =~= all);
    out
}

fn mark_fault(list: &mut Vec<HookBinding>, index: usize, seq: u64)
    ensures
        value::views(final(list)@) == ({
            let all = value::views(old(list)@);
            if index < all.len() {
                all.update(
                    index as int,
                    HookBindingView { last_fault_seq: Some(seq), ..all[index as int] },
                )
            } else {
                all
            }
        }),
{
    if index < list.len() {
        let mut b = list[index].copy();
        b.last_fault_seq = Some(seq);
        list.set(index, b);
    }
}

impl HookSet {
    /// No bindings.
    pub fn new() -> (r: Self)
        ensures
            r@ == (HookSetView { on_turn_start: Seq::empty(), on_tool_intent: Seq::empty() }),
    {
        HookSet { on_turn_start: Vec::new(), on_tool_intent: Vec::new() }
    }

    /// The set of the given bindings.
    pub fn from_bindings(on_turn_start: Vec<HookBinding>, on_tool_intent: Vec<HookBinding>) -> (r:
        Self)
        ensures
            r@ == (HookSetView {
                on_turn_start: value::views(on_turn_start@),
                on_tool_intent: value::views(on_tool_intent@),
            }),
    {
        HookSet { on_turn_start, on_tool_intent }
    }

    /// The bindings of a kind, in order.
    pub fn bindings(&self, kind: HookKind) -> (r: &Vec<HookBinding>)
        ensures
            value::views(r@) == bound(self@, kind),
    {
        match kind {
            HookKind::OnTurnStart => &self.on_turn_start,
            HookKind::OnToolIntent => &self.on_tool_intent,
        }
    }

    pub fn is_empty(&self) -> (r: bool)
        ensures
            r == (self@.on_turn_start.len() == 0 && self@.on_tool_intent.len() == 0),
    {
        self.on_turn_start.len() == 0 && self.on_tool_intent.len() == 0
    }

    /// Notes the seq of the record of a fault.
    pub fn mark_fault_seq(&mut self, kind: HookKind, index: usize, seq: u64)
        ensures
            final(self)@ == ({
                let list = bound(old(self)@, kind);
                if index < list.len() {
                    rebound(
                        old(self)@,
                        kind,
                        list.update(
                            index as int,
                            HookBindingView { last_fault_seq: Some(seq), ..list[index as int] },
                        ),
                    )
                } else {
                    old(self)@
                }
            }),
    {
        match kind {
            HookKind::OnTurnStart => mark_fault(&mut self.on_turn_start, index, seq),
            HookKind::OnToolIntent => mark_fault(&mut self.on_tool_intent, index, seq),
        }
    }

    /// Binds anew: each candidate that a live generation answers, in order. A
    /// binding that stays the same keeps its degradation.
    pub fn rebuild(
        &mut self,
        on_turn_start: &Vec<HookCandidate>,
        on_tool_intent: &Vec<HookCandidate>,
        live: &Vec<LiveModule>,
    )
        ensures
            final(self)@ == (HookSetView {
                on_turn_start: made_anew(
                    HookKind::OnTurnStart,
                    value::views(on_turn_start@),
                    value::views(live@),
                    old(self)@.on_turn_start,
                ),
                on_tool_intent: made_anew(
                    HookKind::OnToolIntent,
                    value::views(on_tool_intent@),
                    value::views(live@),
                    old(self)@.on_tool_intent,
                ),
            }),
    {
        self.on_turn_start = make_anew(
            HookKind::OnTurnStart,
            on_turn_start,
            live,
            &self.on_turn_start,
        );
        self.on_tool_intent = make_anew(
            HookKind::OnToolIntent,
            on_tool_intent,
            live,
            &self.on_tool_intent,
        );
    }

    /// Starts an evaluation of a kind.
    pub fn evaluate(&self, kind: HookKind) -> (r: HookStep)
        ensures
            r@ == settled(bound(self@, kind), begun(kind)),
    {
        settle(
            self.bindings(kind),
            HookRun { kind, index: 0, annotations: Vec::new(), faults: Vec::new() },
        )
    }

    /// Goes on with an evaluation: `answer` is what the call of the binding
    /// that the run stands at gave.
    pub fn answer(&mut self, run: HookRun, answer: Result<String, HookError>) -> (r: HookStep)
        requires
            run.index < bound(old(self)@, run.kind).len(),
            bound(old(self)@, run.kind)[run.index as int].faults < u64::MAX,
        ensures
            r@ == answered(bound(old(self)@, run.kind), run@, answer_of(answer)),
            final(self)@ == rebound(
                old(self)@,
                run.kind,
                bindings_after(bound(old(self)@, run.kind), run@, answer_of(answer)),
            ),
    {
        match run.kind {
            HookKind::OnTurnStart => take_answer(&mut self.on_turn_start, run, answer),
            HookKind::OnToolIntent => take_answer(&mut self.on_tool_intent, run, answer),
        }
    }
}

// ---------- faults ----------

pub open spec fn fault_class(error: HookError) -> Seq<char> {
    match error {
        HookError::Trap => "trap"@,
        HookError::Timeout => "timeout"@,
        HookError::Invalid => "invalid"@,
        HookError::Gone => "gone"@,
    }
}

fn fault_class_text(error: HookError) -> (r: &'static str)
    ensures
        r@ == fault_class(error),
{
    match error {
        HookError::Trap => "trap",
        HookError::Timeout => "timeout",
        HookError::Invalid => "invalid",
        HookError::Gone => "gone",
    }
}

/// The record of a degradation: identities, digests and counts only.
pub open spec fn fault_record(f: HookFaultView) -> EventView {
    event::document(
        "module_fault"@,
        JsonView::Object(
            json::fields7(
                json::fv("module_id"@, JsonView::Text(f.binding.module_id)),
                json::fv("package_digest"@, JsonView::Text(f.binding.package_digest)),
                json::fv("generation"@, JsonView::Unsigned(f.binding.generation)),
                json::fv("hook"@, JsonView::Text(contribution::hook_name(f.binding.hook))),
                json::fv("entry"@, JsonView::Text(f.binding.entry)),
                json::fv("fault_class"@, JsonView::Text(fault_class(f.error))),
                json::fv("count"@, JsonView::Unsigned(f.binding.faults)),
            ),
        ),
    )
}

/// The event that records a fault; none for a fault of a binding that was
/// degraded already.
pub fn fault_event(f: &HookFault) -> (r: Option<Event>)
    ensures
        value::opt_view(r) == if f.transitioned {
            Some(fault_record(f@))
        } else {
            None
        },
{
    if !f.transitioned {
        return None;
    }
    let b = &f.binding;
    let d = json::field(json::no_fields(), "module_id", json::text_json(b.module_id.text.as_str()));
    let d = json::field(d, "package_digest", json::text_json(b.package_digest.text.as_str()));
    let d = json::field(d, "generation", Json::Unsigned(b.generation));
    let d = json::field(d, "hook", json::text_json(b.hook.as_str()));
    let d = json::field(d, "entry", json::text_json(b.entry.as_str()));
    let d = json::field(d, "fault_class", json::text_json(fault_class_text(f.error)));
    let d = json::field(d, "count", Json::Unsigned(b.faults));
    Some(event::document_event("module_fault", json::record(d)))
}

// ---------- respawns ----------

/// The modules that were respawned since the composition last changed.
pub struct Respawns {
    done: Vec<Id128>,
}

impl View for Respawns {
    type V = Seq<Seq<char>>;

    closed spec fn view(&self) -> Seq<Seq<char>> {
        value::views(self.done@)
    }
}

/// The modules to respawn for faults: each at most once until the composition
/// changes.
pub open spec fn due_respawns(done: Seq<Seq<char>>, faults: Seq<HookFaultView>) -> Seq<Seq<char>>
    decreases faults.len(),
{
    if faults.len() == 0 {
        Seq::empty()
    } else {
        let rest = due_respawns(done, faults.drop_last());
        let module = faults.last().binding.module_id;
        if done.contains(module) || rest.contains(module) {
            rest
        } else {
            rest.push(module)
        }
    }
}

impl Respawns {
    pub fn new() -> (r: Self)
        ensures
            r@ == Seq::<Seq<char>>::empty(),
    {
        let r = Respawns { done: Vec::new() };
        assert(r@ =~= Seq::empty());
        r
    }

    /// Takes the modules to respawn for the faults of an evaluation.
    pub fn take_due(&mut self, faults: &Vec<HookFault>) -> (r: Vec<Id128>)
        ensures
            value::views(r@) == due_respawns(old(self)@, value::views(faults@)),
            final(self)@ == old(self)@ + value::views(r@),
    {
        let ghost all = value::views(faults@);
        let mut out: Vec<Id128> = Vec::new();
        let mut i: usize = 0;
        assert(all.take(0) =~= Seq::empty());
        while i < faults.len()
            invariant
                i <= faults.len(),
                all == value::views(faults@),
                *self == *old(self),
                value::views(out@) == due_respawns(self@, all.take(i as int)),
            decreases faults.len() - i,
        {
            proof {
                assert(all.take(i + 1).last() == faults@[i as int]@);
                assert(all.take(i + 1).drop_last() =~= all.take(i as int));
            }
            let module = &faults[i].binding.module_id;
            if !value::occurs(&self.done, module) && !value::occurs(&out, module) {
                out.push(module.copy());
            }
            i = i + 1;
        }
        assert(all.take(i as int) =~= all);
        let ghost before = value::views(self.done@);
        let mut more = value::copy_vec(&out);
        self.done.append(&mut more);
        assert(value::views(self.done@) =~= before + value::views(out@));
        out
    }

    /// The composition changed: every module may be respawned again.
    pub fn composition_changed(&mut self)
        ensures
            final(self)@ == Seq::<Seq<char>>::empty(),
    {
        self.done = Vec::new();
        assert(self@ =~= Seq::empty());
    }
}

// ---------- laws ----------

/// A module is respawned at most once until the composition changes.
pub proof fn law_modules_are_respawned_once(
    done: Seq<Seq<char>>,
    first: Seq<HookFaultView>,
    second: Seq<HookFaultView>,
    module: Seq<char>,
)
    requires
        due_respawns(done, first).contains(module),
    ensures
        !done.contains(module),
        !due_respawns(done + due_respawns(done, first), second).contains(module),
{
    lemma_due_is_new(done, first, module);
    let once = due_respawns(done, first);
    let k = choose|k: int| 0 <= k < once.len() && once[k] == module;
    assert((done + once)[done.len() + k] == module);
    if due_respawns(done + once, second).contains(module) {
        lemma_due_is_new(done + once, second, module);
    }
}

proof fn lemma_due_is_new(done: Seq<Seq<char>>, faults: Seq<HookFaultView>, module: Seq<char>)
    requires
        due_respawns(done, faults).contains(module),
    ensures
        !done.contains(module),
    decreases faults.len(),
{
    if faults.len() > 0 {
        let rest = due_respawns(done, faults.drop_last());
        let all = due_respawns(done, faults);
        let k = choose|k: int| 0 <= k < all.len() && all[k] == module;
        if k < rest.len() {
            assert(rest[k] == module);
            lemma_due_is_new(done, faults.drop_last(), module);
        }
    }
}

/// The outcome of a whole evaluation, given the answers in the order of the
/// calls, and whether it is over.
pub open spec fn outcome(
    bindings: Seq<HookBindingView>,
    step: HookStepView,
    answers: Seq<Result<HookDecisionView, HookError>>,
) -> HookStepView
    decreases answers.len(),
{
    match step {
        HookStepView::Done(_) => step,
        HookStepView::Call(run) => if answers.len() == 0 {
            step
        } else {
            outcome(
                bindings_after(bindings, run, answers[0]),
                answered(bindings, run, answers[0]),
                answers.drop_first(),
            )
        },
    }
}

proof fn lemma_settled_gate(bindings: Seq<HookBindingView>, run: HookRunView)
    requires
        run.kind == HookKind::OnToolIntent,
        run.index <= bindings.len(),
    ensures
        settled(bindings, run) matches HookStepView::Call(r) ==> r == run && run.index
            < bindings.len() && !bindings[run.index as int].degraded,
        settled(bindings, run) matches HookStepView::Done(e) ==> (e.decision is Continue <==> run.index
            == bindings.len()),
{
}

proof fn lemma_gate(
    bindings: Seq<HookBindingView>,
    run: HookRunView,
    answers: Seq<Result<HookDecisionView, HookError>>,
)
    requires
        run.kind == HookKind::OnToolIntent,
        run.index <= bindings.len(),
        outcome(bindings, settled(bindings, run), answers) matches HookStepView::Done(e)
            && e.decision is Continue,
    ensures
        forall|i: int| run.index <= i < bindings.len() ==> !(#[trigger] bindings[i]).degraded,
        answers.len() >= bindings.len() - run.index,
        forall|k: int|
            0 <= k < bindings.len() - run.index ==> (#[trigger] answers[k] matches Ok(d)
                && d.decision is Continue),
    decreases bindings.len() - run.index,
{
    reveal_with_fuel(outcome, 2);
    lemma_settled_gate(bindings, run);
    if run.index < bindings.len() {
        let a = answers[0];
        let next = bindings_after(bindings, run, a);
        let then = HookRunView { index: run.index + 1, ..run_after(bindings, run, a) };
        assert(answers.len() > 0);
        assert(decided(run.kind, a) is Continue);
        lemma_gate(next, then, answers.drop_first());
        assert forall|i: int| run.index <= i < bindings.len() implies !(
        #[trigger] bindings[i]).degraded by {
            if i > run.index {
                assert(next[i] == bindings[i]);
            }
        }
        assert forall|k: int| 0 <= k < bindings.len() - run.index implies (#[trigger] answers[k]
            matches Ok(d) && d.decision is Continue) by {
            if k > 0 {
                assert(answers[k] == answers.drop_first()[k - 1]);
            }
        }
    }
}

/// The intent gate fails closed: an evaluation that lets a tool intent through
/// asked every binding, found none degraded, and heard every one continue.
pub proof fn law_intent_gate_fails_closed(
    bindings: Seq<HookBindingView>,
    answers: Seq<Result<HookDecisionView, HookError>>,
)
    requires
        outcome(
            bindings,
            settled(bindings, begun(HookKind::OnToolIntent)),
            answers,
        ) matches HookStepView::Done(e) && e.decision is Continue,
    ensures
        forall|i: int| 0 <= i < bindings.len() ==> !(#[trigger] bindings[i]).degraded,
        answers.len() >= bindings.len(),
        forall|k: int|
            0 <= k < bindings.len() ==> (#[trigger] answers[k] matches Ok(d)
                && d.decision is Continue),
{
    lemma_gate(bindings, begun(HookKind::OnToolIntent), answers);
}

/// A fault never denies a turn: only a hook that answered denies one.
pub proof fn law_turn_faults_do_not_deny(
    bindings: Seq<HookBindingView>,
    run: HookRunView,
    error: HookError,
)
    requires
        run.kind == HookKind::OnTurnStart,
        run.index < bindings.len(),
    ensures
        answered(bindings, run, Err(error)) matches HookStepView::Done(e) ==> e.decision
            is Continue,
{
    let next = bindings_after(bindings, run, Err(error));
    let then = HookRunView {
        index: run.index + 1,
        ..run_after(bindings, run, Err(error))
    };
    lemma_turn_settles(next, then);
}

proof fn lemma_turn_settles(bindings: Seq<HookBindingView>, run: HookRunView)
    requires
        run.kind == HookKind::OnTurnStart,
        run.index <= bindings.len(),
    ensures
        settled(bindings, run) matches HookStepView::Done(e) ==> e.decision is Continue,
    decreases bindings.len() - run.index,
{
    if run.index < bindings.len() && bindings[run.index as int].degraded {
        lemma_turn_settles(bindings, HookRunView { index: run.index + 1, ..run });
    }
}

/// A fault touches its own binding and no other.
pub proof fn law_a_fault_degrades_one_binding(
    bindings: Seq<HookBindingView>,
    run: HookRunView,
    error: HookError,
    i: int,
)
    requires
        run.index < bindings.len(),
        0 <= i < bindings.len(),
    ensures
        bindings_after(bindings, run, Err(error)).len() == bindings.len(),
        i != run.index ==> bindings_after(bindings, run, Err(error))[i] == bindings[i],
        i == run.index ==> bindings_after(bindings, run, Err(error))[i].degraded,
{
}

/// A hook's document lets pass or denies by its decision and by nothing else. A
/// denial carries the reason that the document gives, at most 240 characters of
/// it, or the standing one.
pub proof fn law_hooks_decide_by_their_document(v: JsonView)
    ensures
        json::text_member(v, "decision"@) == Some("continue"@) ==> stated_decision(v) == Some(
            DecisionView::Continue,
        ),
        stated_decision(v) is Some <==> json::text_member(v, "decision"@) == Some("continue"@)
            || json::text_member(v, "decision"@) == Some("deny"@),
        json::text_member(v, "decision"@) == Some("deny"@) ==> (
        stated_decision(v) matches Some(DecisionView::Deny { reason }) && {
            &&& json::text_member(v, "reason"@) is None ==> reason == "denied by hook"@
            &&& json::text_member(v, "reason"@) matches Some(r) ==> reason.len() <= 240
                && reason.is_prefix_of(r) && (r.len() <= 240 ==> reason == r)
        }),
        stated(v) matches Some(d) ==> stated_decision(v) == Some(d.decision),
        stated_decision(v) is None ==> stated(v) is None,
        stated(v) is Some && (json::member(v, "annotations"@) is None || json::member(
            v,
            "annotations"@,
        ) == Some(JsonView::Null)) ==> stated(v)->0.annotations.len() == 0,
        stated_decision(v) is Some && json::member(v, "annotations"@) is None ==> stated(v) is Some,
        json::member(v, "annotations"@) matches Some(JsonView::List(items)) ==> (stated(v) is Some
            <==> stated_decision(v) is Some && stated_annotations(items) is Some),
        stated(v) is Some ==> (json::member(v, "annotations"@) matches Some(JsonView::List(items))
            ==> stated_annotations(items) == Some(stated(v)->0.annotations)),
{
    reveal_strlit("continue");
    reveal_strlit("deny");
    assert("continue"@.len() == 8 && "deny"@.len() == 4);
}

/// Annotations are read one by one, each with its key and its value, texts
/// shortened; one that is malformed spoils them all.
pub proof fn law_every_annotation_is_read(items: Seq<JsonView>, v: JsonView)
    ensures
        stated_annotations(Seq::empty()) == Some(Seq::<AnnotationView>::empty()),
        stated_annotations(items.push(v)) is Some <==> stated_annotations(items) is Some
            && json::text_member(v, "key"@) is Some && json::member(v, "value"@) is Some,
        stated_annotations(items.push(v)) matches Some(all) ==> {
            let key = json::text_member(v, "key"@)->0;
            let x = json::member(v, "value"@)->0;
            &&& all.drop_last() == stated_annotations(items)->0
            &&& all.last().key.is_prefix_of(key)
            &&& all.last().key.len() <= 64
            &&& key.len() <= 64 ==> all.last().key == key
            &&& !(x is Text) ==> all.last().value == x
            &&& x matches JsonView::Text(t) ==> (all.last().value matches JsonView::Text(u)
                && u.is_prefix_of(t) && u.len() <= 512 && (t.len() <= 512 ==> u == t))
        },
{
    assert(items.push(v).drop_last() =~= items);
    if stated_annotations(items.push(v)) is Some {
        let all = stated_annotations(items.push(v))->0;
        assert(all.drop_last() =~= stated_annotations(items)->0);
    }
}

/// A hook that cannot be asked denies a tool intent and lets a turn start.
pub proof fn law_unavailable_hooks_gate_intents_only()
    ensures
        default_decision(HookKind::OnToolIntent) is Deny,
        default_decision(HookKind::OnTurnStart) is Continue,
{
}

/// Each kind has its own bindings: changing those of one leaves the other's.
pub proof fn law_kinds_are_bound_apart(
    set: HookSetView,
    kind: HookKind,
    other: HookKind,
    bindings: Seq<HookBindingView>,
)
    ensures
        bound(rebound(set, kind, bindings), kind) == bindings,
        other != kind ==> bound(rebound(set, kind, bindings), other) == bound(set, other),
        bound(set, HookKind::OnTurnStart) == set.on_turn_start,
        bound(set, HookKind::OnToolIntent) == set.on_tool_intent,
{
}

/// An evaluation asks the bindings in their order and passes over no healthy one.
/// A degraded one is passed over at the start of a turn and denies an intent.
pub proof fn law_evaluations_ask_in_order(bindings: Seq<HookBindingView>, run: HookRunView)
    ensures
        settled(bindings, run) matches HookStepView::Call(r) ==> {
            &&& run.index <= r.index < bindings.len()
            &&& !bindings[r.index as int].degraded
            &&& forall|i: int| run.index <= i < r.index ==> (#[trigger] bindings[i]).degraded
            &&& r.kind == run.kind
            &&& r.annotations == run.annotations
            &&& r.faults == run.faults
            &&& run.kind == HookKind::OnToolIntent ==> r.index == run.index
        },
        settled(bindings, run) matches HookStepView::Done(e) ==> {
            &&& e.annotations == run.annotations
            &&& e.faults == run.faults
            &&& e.decision is Continue ==> e.denier is None && forall|i: int|
                run.index <= i < bindings.len() ==> (#[trigger] bindings[i]).degraded
            &&& e.decision is Deny ==> run.kind == HookKind::OnToolIntent && run.index
                < bindings.len() && bindings[run.index as int].degraded && e.denier == Some(
                bindings[run.index as int],
            )
        },
    decreases bindings.len() - run.index,
{
    if run.index < bindings.len() && bindings[run.index as int].degraded && !(default_decision(
        run.kind,
    ) is Deny) {
        law_evaluations_ask_in_order(bindings, HookRunView { index: run.index + 1, ..run });
    }
}

/// A hook that denies ends the evaluation with its decision and is named as the
/// denier; one that lets pass adds its annotations, and the next binding is next.
/// An answer takes a binding out of degradation; a fault puts it there and is
/// counted.
pub proof fn law_answers_count(
    bindings: Seq<HookBindingView>,
    run: HookRunView,
    d: HookDecisionView,
    error: HookError,
)
    requires
        run.index < bindings.len(),
        bindings[run.index as int].faults < u64::MAX,
    ensures
        ({
            let b = bindings[run.index as int];
            let heard = bindings_after(bindings, run, Ok(d));
            let failed = bindings_after(bindings, run, Err(error));
            &&& heard.len() == bindings.len() && failed.len() == bindings.len()
            &&& !heard[run.index as int].degraded
            &&& heard[run.index as int].faults == b.faults
            &&& failed[run.index as int].degraded
            &&& failed[run.index as int].faults == b.faults + 1
            &&& same_binding(heard[run.index as int], b)
            &&& same_binding(failed[run.index as int], b)
            &&& d.decision is Deny ==> (
            answered(bindings, run, Ok(d)) matches HookStepView::Done(e) && e.decision
                == d.decision && e.denier == Some(heard[run.index as int]) && e.annotations
                == run.annotations + d.annotations && e.faults == run.faults)
            &&& d.decision is Continue ==> answered(bindings, run, Ok(d)) == settled(
                heard,
                HookRunView {
                    kind: run.kind,
                    index: run.index + 1,
                    annotations: run.annotations + d.annotations,
                    faults: run.faults,
                },
            )
            &&& run.kind == HookKind::OnToolIntent ==> (
            answered(bindings, run, Err(error)) matches HookStepView::Done(e)
                && e.decision is Deny && e.denier == Some(failed[run.index as int])
                && e.faults.len() == run.faults.len() + 1 && e.faults.last().error == error
                && e.faults.last().index == run.index && e.faults.last().transitioned
                == !b.degraded)
        }),
{
}

/// An evaluation starts at the first binding with nothing heard, and hears what
/// the raw text says, or that it is invalid.
pub proof fn law_evaluations_start_empty(kind: HookKind, answer: Result<String, HookError>)
    ensures
        begun(kind).kind == kind,
        begun(kind).index == 0,
        begun(kind).annotations.len() == 0,
        begun(kind).faults.len() == 0,
        answer matches Ok(raw) ==> (answer_of(answer) is Ok <==> (json::parsed(
            raw@,
        ) matches Some(v) && stated(v) is Some)),
        answer matches Ok(raw) ==> (answer_of(answer) matches Ok(d) ==> (json::parsed(
            raw@,
        ) matches Some(v) && stated(v) == Some(d))),
        answer matches Err(e) ==> answer_of(answer) == Err::<HookDecisionView, HookError>(e),
{
}

/// A binding stands for a candidate that a live generation answers, with that
/// module and its package; a candidate without one is not bound. A binding that
/// was there before keeps its degradation and its count, a new one has none.
pub proof fn law_candidates_are_bound_in_order(
    kind: HookKind,
    candidates: Seq<HookCandidateView>,
    c: HookCandidateView,
    live: Seq<LiveModuleView>,
    old_bindings: Seq<HookBindingView>,
)
    ensures
        made_anew(kind, Seq::empty(), live, old_bindings).len() == 0,
        ({
            let before = made_anew(kind, candidates, live, old_bindings);
            let after = made_anew(kind, candidates.push(c), live, old_bindings);
            let m = if c.generation is Some {
                module_of(live, c.generation->0)
            } else {
                None
            };
            if m is Some {
                let b = after.last();
                &&& after.len() == before.len() + 1
                &&& after.drop_last() == before
                &&& b.module_id == m->0.module_id
                &&& b.package_digest == m->0.package
                &&& b.generation == c.generation->0
                &&& b.name == c.name
                &&& b.entry == c.entry
                &&& b.hook == kind
                &&& survivor(old_bindings, b) is None ==> !b.degraded && b.faults == 0
                    && b.last_fault_seq is None
                &&& survivor(old_bindings, b) matches Some(p) ==> b.degraded == p.degraded
                    && b.faults == p.faults && b.last_fault_seq == p.last_fault_seq
            } else {
                after == before
            }
        }),
{
    assert(candidates.push(c).drop_last() =~= candidates);
    let before = made_anew(kind, candidates, live, old_bindings);
    let after = made_anew(kind, candidates.push(c), live, old_bindings);
    if binding_of(kind, c, live) is Some {
        let b = binding_of(kind, c, live)->0;
        assert(after == before.push(carried(old_bindings, b)));
        assert(after.drop_last() =~= before);
        lemma_survivor_by_identity(old_bindings, b, after.last());
    }
}

proof fn lemma_survivor_by_identity(
    old_bindings: Seq<HookBindingView>,
    a: HookBindingView,
    b: HookBindingView,
)
    requires
        same_binding(a, b),
    ensures
        survivor(old_bindings, a) == survivor(old_bindings, b),
    decreases old_bindings.len(),
{
    if old_bindings.len() > 0 {
        lemma_survivor_by_identity(old_bindings.drop_first(), a, b);
    }
}

/// What survives is the same hook of the same generation, and something survives
/// wherever there was one; a generation is answered by the last module listed of
/// it.
pub proof fn law_survivors_are_the_same_hook(
    old_bindings: Seq<HookBindingView>,
    b: HookBindingView,
    i: int,
    live: Seq<LiveModuleView>,
    m: LiveModuleView,
    generation: u64,
)
    ensures
        survivor(old_bindings, b) matches Some(p) ==> old_bindings.contains(p) && p.module_id
            == b.module_id && p.generation == b.generation && p.hook == b.hook && p.name == b.name
            && p.entry == b.entry,
        survivor(old_bindings, b) is None && 0 <= i < old_bindings.len() ==> !(
        old_bindings[i].module_id == b.module_id && old_bindings[i].generation == b.generation
            && old_bindings[i].hook == b.hook && old_bindings[i].name == b.name
            && old_bindings[i].entry == b.entry),
        module_of(Seq::empty(), generation) is None,
        module_of(live.push(m), generation) == if m.generation == generation {
            Some(m)
        } else {
            module_of(live, generation)
        },
    decreases old_bindings.len(),
{
    assert(live.push(m).drop_last() =~= live);
    if old_bindings.len() > 0 {
        let rest = old_bindings.drop_first();
        law_survivors_are_the_same_hook(rest, b, i - 1, live, m, generation);
        assert(old_bindings.contains(old_bindings[0]));
        if survivor(rest, b) is Some {
            let p = survivor(rest, b)->0;
            let k = choose|k: int| 0 <= k < rest.len() && rest[k] == p;
            assert(old_bindings[k + 1] == p);
        }
        if 0 < i < old_bindings.len() {
            assert(rest[i - 1] == old_bindings[i]);
        }
    }
}

/// Every module that faulted and was not respawned yet is due, once.
pub proof fn law_faulted_modules_are_respawned(
    done: Seq<Seq<char>>,
    faults: Seq<HookFaultView>,
    module: Seq<char>,
)
    ensures
        due_respawns(done, faults).contains(module) <==> !done.contains(module) && exists|i: int|
            0 <= i < faults.len() && (#[trigger] faults[i]).binding.module_id == module,
        due_respawns(done, faults).no_duplicates(),
    decreases faults.len(),
{
    if faults.len() > 0 {
        let d = faults.drop_last();
        law_faulted_modules_are_respawned(done, d, module);
        law_faulted_modules_are_respawned(done, d, faults.last().binding.module_id);
        let rest = due_respawns(done, d);
        let all = due_respawns(done, faults);
        assert(faults[faults.len() - 1] == faults.last());
        if rest.contains(module) {
            let k = choose|k: int| 0 <= k < rest.len() && rest[k] == module;
            assert(all[k] == module);
            let i = choose|i: int| 0 <= i < d.len() && (#[trigger] d[i]).binding.module_id == module;
            assert(faults[i] == d[i]);
        }
        if all.contains(module) && !rest.contains(module) {
            let k = choose|k: int| 0 <= k < all.len() && all[k] == module;
            if k < rest.len() {
                assert(rest[k] == module);
            }
        }
        if !done.contains(module) && exists|i: int|
            0 <= i < faults.len() && (#[trigger] faults[i]).binding.module_id == module {
            let i = choose|i: int|
                0 <= i < faults.len() && (#[trigger] faults[i]).binding.module_id == module;
            if i < d.len() {
                assert(d[i] == faults[i]);
            } else if !rest.contains(module) {
                assert(all[all.len() - 1] == module);
            }
        }
    }
}

} // verus!
