//! Context projection: what a run is shown. The events of its branch, the
//! memory of its scopes, and what woke it.
use vstd::prelude::*;
use vstd::string::*;
use vstd::utf8::*;
use crate::branch;
use crate::branch::{BranchRecordView, BranchState, PinnedRoots, PinnedRootsView};
use crate::cognition::{StepContext, StepContextView};
use crate::commit::{RecentEvent, RecentEventView};
use crate::ids::{Digest, Id128};
use crate::json;
use crate::json::{Json, JsonView};
use crate::json_laws;
use crate::memory;
use crate::memory::{
    Claim, ClaimEdge, ClaimEdgeView, ClaimView, EdgeKind, MemorySource, MemorySourceView, RootFold,
    RootFoldView, StoredClaimView,
};
use crate::memory_tools::{Contradiction, ContradictionView};
use crate::model;
use crate::model::{CachePlan, Message, MessageView, ProjectionState, ProjectionStateView};
use crate::runs;
use crate::runs::{Budgets, Trigger, TriggerView};
use crate::text;
use crate::value;
use crate::value::Value;

verus! {

broadcast use value::group_views;

/// The most bytes of an event that a projection shows.
pub const EVENT_TEXT_MAX: usize = 512;

/// The most tokens of a projection.
pub const MAX_TOTAL_TOKENS: u64 = 8192;

/// The most tokens of its volatile part.
pub const MAX_VOLATILE_TOKENS: u64 = 4096;

/// The contract that every projection begins with.
pub const HARNESS_CONTRACT: &'static str =
    "kanbei kernel harness contract v1\nstable harness contract; deterministic tool/module schemas; stable memory; conversation prefix; volatile active memory; current trigger.";

/// The schema of a tool.
#[derive(Debug, Clone, PartialEq, Eq)]
pub struct SchemaFragment {
    pub id: String,
    pub digest: Digest,
    pub text: String,
    pub sensitivity: String,
}

pub struct SchemaFragmentView {
    pub id: Seq<char>,
    pub digest: Seq<char>,
    pub text: Seq<char>,
    pub sensitivity: Seq<char>,
}

impl View for SchemaFragment {
    type V = SchemaFragmentView;

    open spec fn view(&self) -> SchemaFragmentView {
        SchemaFragmentView {
            id: self.id@,
            digest: self.digest@,
            text: self.text@,
            sensitivity: self.sensitivity@,
        }
    }
}

/// An event as a projection shows it.
#[derive(Debug, Clone, PartialEq, Eq)]
pub struct RenderedEvent {
    pub seq: u64,
    pub kind: String,
    pub text: String,
    pub sensitivity: String,
}

pub struct RenderedEventView {
    pub seq: u64,
    pub kind: Seq<char>,
    pub text: Seq<char>,
    pub sensitivity: Seq<char>,
}

impl View for RenderedEvent {
    type V = RenderedEventView;

    open spec fn view(&self) -> RenderedEventView {
        RenderedEventView {
            seq: self.seq,
            kind: self.kind@,
            text: self.text@,
            sensitivity: self.sensitivity@,
        }
    }
}

impl Value for RenderedEvent {
    fn copy(&self) -> (r: Self) {
        RenderedEvent {
            seq: self.seq,
            kind: self.kind.copy(),
            text: self.text.copy(),
            sensitivity: self.sensitivity.copy(),
        }
    }

    fn same(&self, other: &Self) -> (r: bool) {
        self.seq == other.seq
            && self.kind.same(&other.kind)
            && self.text.same(&other.text)
            && self.sensitivity.same(&other.sensitivity)
    }
}

/// What woke the run.
#[derive(Debug, Clone, PartialEq, Eq)]
pub struct TriggerFragment {
    pub kind: String,
    pub text: String,
    pub sensitivity: String,
}

pub struct TriggerFragmentView {
    pub kind: Seq<char>,
    pub text: Seq<char>,
    pub sensitivity: Seq<char>,
}

impl View for TriggerFragment {
    type V = TriggerFragmentView;

    open spec fn view(&self) -> TriggerFragmentView {
        TriggerFragmentView {
            kind: self.kind@,
            text: self.text@,
            sensitivity: self.sensitivity@,
        }
    }
}

impl Value for TriggerFragment {
    fn copy(&self) -> (r: Self) {
        TriggerFragment {
            kind: self.kind.copy(),
            text: self.text.copy(),
            sensitivity: self.sensitivity.copy(),
        }
    }

    fn same(&self, other: &Self) -> (r: bool) {
        self.kind.same(&other.kind)
            && self.text.same(&other.text)
            && self.sensitivity.same(&other.sensitivity)
    }
}

/// A claim that was found salient, with its score.
#[derive(Debug, Clone, PartialEq, Eq)]
pub struct ScoredClaim {
    pub digest: Digest,
    pub claim: Claim,
    pub score: Json,
}

pub struct ScoredClaimView {
    pub digest: Seq<char>,
    pub claim: ClaimView,
    pub score: JsonView,
}

impl View for ScoredClaim {
    type V = ScoredClaimView;

    open spec fn view(&self) -> ScoredClaimView {
        ScoredClaimView {
            digest: self.digest@,
            claim: self.claim@,
            score: self.score@,
        }
    }
}

/// A claim as evidence.
#[derive(Debug, Clone, PartialEq, Eq)]
pub struct EvidenceClaim {
    pub digest: Digest,
    pub text: String,
    pub kind: String,
    pub sensitivity: String,
    pub status: Json,
    pub score: Json,
    pub contradictions: Vec<Contradiction>,
    pub source_events: Vec<u64>,
}

pub struct EvidenceClaimView {
    pub digest: Seq<char>,
    pub text: Seq<char>,
    pub kind: Seq<char>,
    pub sensitivity: Seq<char>,
    pub status: JsonView,
    pub score: JsonView,
    pub contradictions: Seq<ContradictionView>,
    pub source_events: Seq<u64>,
}

impl View for EvidenceClaim {
    type V = EvidenceClaimView;

    open spec fn view(&self) -> EvidenceClaimView {
        EvidenceClaimView {
            digest: self.digest@,
            text: self.text@,
            kind: self.kind@,
            sensitivity: self.sensitivity@,
            status: self.status@,
            score: self.score@,
            contradictions: value::views(self.contradictions@),
            source_events: self.source_events@,
        }
    }
}

// ---------- the prefix ----------

/// The last event that a projection covers.
pub open spec fn frozen(next_seq: u64) -> u64 {
    if next_seq == 0 {
        0
    } else {
        (next_seq - 1) as u64
    }
}

pub fn frozen_seq(next_seq: u64) -> (r: u64)
    ensures
        r == frozen(next_seq),
{
    if next_seq == 0 {
        0
    } else {
        next_seq - 1
    }
}

/// An event as it is shown: its document, clipped.
pub open spec fn shown(e: RecentEventView) -> RenderedEventView {
    RenderedEventView {
        seq: e.seq,
        kind: e.kind,
        text: text::clipped(json::json_text(e.payload), EVENT_TEXT_MAX as nat),
        sensitivity: "internal"@,
    }
}

/// The recent events that are on the path of the branch: abandoned tails never
/// enter a projection.
pub open spec fn shown_events(recent: Seq<RecentEventView>, records: Seq<BranchRecordView>) -> Seq<
    RenderedEventView,
>
    decreases recent.len(),
{
    if recent.len() == 0 {
        Seq::empty()
    } else {
        let rest = shown_events(recent.drop_last(), records);
        if branch::is_on_path(records, recent.last().seq) {
            rest.push(shown(recent.last()))
        } else {
            rest
        }
    }
}

/// The events of the prefix; none before the first commit.
pub open spec fn prefix_events(
    recent: Seq<RecentEventView>,
    records: Seq<BranchRecordView>,
    next_seq: u64,
) -> Seq<RenderedEventView> {
    if frozen(next_seq) == 0 {
        Seq::empty()
    } else {
        shown_events(recent, records)
    }
}

pub fn trajectory_events(recent: &Vec<RecentEvent>, state: &BranchState, next_seq: u64) -> (r: Vec<
    RenderedEvent,
>)
    ensures
        value::views(r@) == prefix_events(value::views(recent@), state@.records, next_seq),
{
    let mut out: Vec<RenderedEvent> = Vec::new();
    if frozen_seq(next_seq) == 0 {
        return out;
    }
    let ghost all = value::views(recent@);
    let mut i: usize = 0;
    assert(all.take(0) =~= Seq::empty());
    while i < recent.len()
        invariant
            i <= recent.len(),
            all == value::views(recent@),
            value::views(out@) == shown_events(all.take(i as int), state@.records),
        decreases recent.len() - i,
    {
        let x = &recent[i];
        proof {
            assert(all.take(i + 1).last() == x@);
            assert(all.take(i + 1).drop_last() =~= all.take(i as int));
        }
        if state.on_path(x.seq) {
            let full = json::render(&x.payload);
            out.push(
                RenderedEvent {
                    seq: x.seq,
                    kind: x.kind.clone(),
                    text: text::clip(full.as_str(), EVENT_TEXT_MAX),
                    sensitivity: "internal".to_owned(),
                },
            );
        }
        i = i + 1;
    }
    assert(all.take(i as int) =~= all);
    out
}

/// The seqs of the recent events on the path.
pub open spec fn causal(recent: Seq<RecentEventView>, records: Seq<BranchRecordView>) -> Seq<u64>
    decreases recent.len(),
{
    if recent.len() == 0 {
        Seq::empty()
    } else {
        let rest = causal(recent.drop_last(), records);
        if branch::is_on_path(records, recent.last().seq) {
            rest.push(recent.last().seq)
        } else {
            rest
        }
    }
}

pub fn recent_causal(recent: &Vec<RecentEvent>, state: &BranchState) -> (r: Vec<u64>)
    ensures
        r@ == causal(value::views(recent@), state@.records),
{
    let ghost all = value::views(recent@);
    let mut out: Vec<u64> = Vec::new();
    let mut i: usize = 0;
    assert(all.take(0) =~= Seq::empty());
    while i < recent.len()
        invariant
            i <= recent.len(),
            all == value::views(recent@),
            out@ == causal(all.take(i as int), state@.records),
        decreases recent.len() - i,
    {
        proof {
            assert(all.take(i + 1).last() == recent@[i as int]@);
            assert(all.take(i + 1).drop_last() =~= all.take(i as int));
        }
        if state.on_path(recent[i].seq) {
            out.push(recent[i].seq);
        }
        i = i + 1;
    }
    assert(all.take(i as int) =~= all);
    out
}

/// Stretches of the path, cut to the prefix.
pub open spec fn covered(s: Seq<(u64, u64)>, end: u64) -> Seq<(u64, u64)>
    decreases s.len(),
{
    if s.len() == 0 {
        Seq::empty()
    } else {
        let rest = covered(s.drop_last(), end);
        let a: u64 = if s.last().0 < 1 {
            1
        } else {
            s.last().0
        };
        let b: u64 = if s.last().1 > end {
            end
        } else {
            s.last().1
        };
        if a <= b {
            rest.push((a, b))
        } else {
            rest
        }
    }
}

/// What the prefix covers: the path of the branch up to the last event.
pub open spec fn selected(records: Seq<BranchRecordView>, next_seq: u64) -> Seq<(u64, u64)> {
    if frozen(next_seq) == 0 {
        Seq::empty()
    } else {
        covered(branch::stretches(records), frozen(next_seq))
    }
}

pub fn selected_ranges(state: &BranchState, next_seq: u64) -> (r: Vec<(u64, u64)>)
    requires
        branch::room_after(state@.records),
    ensures
        r@ == selected(state@.records, next_seq),
{
    let mut out: Vec<(u64, u64)> = Vec::new();
    let end: u64 = frozen_seq(next_seq);
    if end == 0 {
        return out;
    }
    let all = state.path_ranges();
    let mut i: usize = 0;
    assert(all@.take(0) =~= Seq::empty());
    while i < all.len()
        invariant
            i <= all.len(),
            out@ == covered(all@.take(i as int), end),
        decreases all.len() - i,
    {
        proof {
            assert(all@.take(i + 1).last() == all@[i as int]);
            assert(all@.take(i + 1).drop_last() =~= all@.take(i as int));
        }
        let a: u64 = if all[i].0 < 1 {
            1
        } else {
            all[i].0
        };
        let b: u64 = if all[i].1 > end {
            end
        } else {
            all[i].1
        };
        if a <= b {
            out.push((a, b));
        }
        i = i + 1;
    }
    assert(all@.take(i as int) =~= all@);
    out
}

// ---------- schemas ----------

/// `digest_of` gives `d` for the bytes of a text.
pub open spec fn digested<F: Fn(Vec<u8>) -> Digest>(digest_of: F, t: Seq<char>, d: Digest) -> bool {
    exists|b: Vec<u8>| b@ == encode_utf8(t) && #[trigger] call_ensures(digest_of, (b,), d)
}

/// The name that a schema goes by.
pub open spec fn schema_id(schema: JsonView) -> Seq<char> {
    match json::text_member(schema, "name"@) {
        Some(t) => t,
        None => Seq::empty(),
    }
}

/// `f` is the fragment of a schema.
pub open spec fn is_fragment<F: Fn(Vec<u8>) -> Digest>(
    f: SchemaFragment,
    schema: JsonView,
    digest_of: F,
) -> bool {
    &&& f.id@ == schema_id(schema)
    &&& f.text@ == json::json_text(schema)
    &&& f.sensitivity@ == "public"@
    &&& digested(digest_of, f.text@, f.digest)
}

/// The schemas that a registry lists.
pub open spec fn listed_schemas(registry: JsonView) -> Seq<JsonView> {
    match registry {
        JsonView::List(items) => items,
        _ => Seq::empty(),
    }
}

/// The fragments of the tool schemas, in the registry's order.
pub fn schema_fragments<F: Fn(Vec<u8>) -> Digest>(registry: &Json, digest_of: &F) -> (r: Vec<
    SchemaFragment,
>)
    requires
        forall|b: Vec<u8>| #[trigger] call_requires(*digest_of, (b,)),
    ensures
        r@.len() == listed_schemas(registry@).len(),
        forall|i: int|
            0 <= i < r@.len() ==> is_fragment(
                #[trigger] r@[i],
                listed_schemas(registry@)[i],
                *digest_of,
            ),
{
    let mut out: Vec<SchemaFragment> = Vec::new();
    let items = match registry {
        Json::List(items) => items,
        _ => return out,
    };
    let ghost all = listed_schemas(registry@);
    proof {
        json::lemma_list_view(items@);
    }
    let mut i: usize = 0;
    while i < items.len()
        invariant
            i <= items.len(),
            all == value::views(items@),
            out@.len() == i,
            forall|b: Vec<u8>| #[trigger] call_requires(*digest_of, (b,)),
            forall|j: int| 0 <= j < i ==> is_fragment(#[trigger] out@[j], all[j], *digest_of),
        decreases items.len() - i,
    {
        let schema = &items[i];
        let id = match schema.get_text("name") {
            Some(t) => t.clone(),
            None => String::new(),
        };
        let text = json::render(schema);
        let bytes = text.as_str().as_bytes_vec();
        let digest = (*digest_of)(bytes);
        assert(call_ensures(*digest_of, (bytes,), digest));
        let f = SchemaFragment { id, digest, text, sensitivity: "public".to_owned() };
        assert(digested(*digest_of, f.text@, f.digest));
        assert(f.id@ =~= schema_id(all[i as int]));
        out.push(f);
        i = i + 1;
    }
    out
}

// ---------- memory ----------

/// The root of the lifetime memory: the pinned one, or the head.
pub open spec fn lifetime_root(pinned: Option<PinnedRootsView>, head: Option<Seq<char>>) -> Option<
    Seq<char>,
> {
    match pinned {
        Some(p) => Some(p.lifetime),
        None => head,
    }
}

/// The root of the project's memory: the pinned one, or the head.
pub open spec fn project_root(pinned: Option<PinnedRootsView>, head: Option<Seq<char>>) -> Option<
    Seq<char>,
> {
    match pinned {
        Some(p) => p.project,
        None => head,
    }
}

/// The roots to fold: those that the branch is pinned to, or the heads.
pub fn roots_to_fold(
    pinned: &Option<PinnedRoots>,
    lifetime: &Option<Digest>,
    project: &Option<Digest>,
) -> (r: (Option<Digest>, Option<Digest>))
    ensures
        value::opt_view(r.0) == lifetime_root(
            value::opt_view(*pinned),
            value::opt_view(*lifetime),
        ),
        value::opt_view(r.1) == project_root(
            value::opt_view(*pinned),
            value::opt_view(*project),
        ),
{
    match pinned {
        Some(p) => (Some(p.lifetime.copy()), value::copy_opt(&p.project)),
        None => (value::copy_opt(lifetime), value::copy_opt(project)),
    }
}

/// The fold that salience is taken from: the project's; without one, nothing
/// for a child and the lifetime memory for any other run.
pub open spec fn salient(
    child: bool,
    lifetime: Option<RootFoldView>,
    project: Option<RootFoldView>,
) -> RootFoldView {
    match project {
        Some(f) => f,
        None => match lifetime {
            Some(f) if !child => f,
            _ => memory::nothing(),
        },
    }
}

pub fn salience_fold(child: bool, lifetime: &Option<RootFold>, project: &Option<RootFold>) -> (r:
    RootFold)
    ensures
        r@ == salient(child, value::opt_view(*lifetime), value::opt_view(*project)),
{
    match project {
        Some(f) => f.copy(),
        None => match lifetime {
            Some(f) => if child {
                memory::empty_fold()
            } else {
                f.copy()
            },
            None => memory::empty_fold(),
        },
    }
}

/// A scope as a fragment: one with claims.
pub open spec fn fragment(root: Option<Seq<char>>, fold: Option<RootFoldView>) -> Option<
    MemorySourceView,
> {
    match (root, fold) {
        (Some(root), Some(fold)) => if fold.claims.len() > 0 {
            Some(memory::source(root, fold))
        } else {
            None
        },
        _ => None,
    }
}

/// The lifetime fragment: children do not see the lifetime memory.
pub open spec fn lifetime_fragment(
    child: bool,
    root: Option<Seq<char>>,
    fold: Option<RootFoldView>,
) -> Option<MemorySourceView> {
    if child {
        None
    } else {
        fragment(root, fold)
    }
}

fn fragment_of(root: &Option<Digest>, fold: &Option<RootFold>) -> (r: Option<MemorySource>)
    ensures
        value::opt_view(r) == fragment(value::opt_view(*root), value::opt_view(*fold)),
{
    match (root, fold) {
        (Some(d), Some(f)) => if f.claims.len() > 0 {
            Some(memory::render_memory_source(d, f))
        } else {
            None
        },
        _ => None,
    }
}

// ---------- evidence ----------

/// The edge speaks against the claim.
pub open spec fn speaks_against(e: ClaimEdgeView, id: Seq<char>) -> bool {
    e.to == Some(id) && (e.kind == EdgeKind::Contradicts || e.kind == EdgeKind::Supersedes)
}

/// What speaks against a claim: the claims that contradict or supersede it,
/// retracted ones too.
pub open spec fn against(fold: RootFoldView, edges: Seq<ClaimEdgeView>, id: Seq<char>) -> Seq<
    ContradictionView,
>
    decreases edges.len(),
{
    if edges.len() == 0 {
        Seq::empty()
    } else {
        let rest = against(fold, edges.drop_last(), id);
        let e = edges.last();
        if speaks_against(e, id) {
            match memory::claim_of(fold.claims + fold.retracted, e.from) {
                Some(c) => rest.push(
                    ContradictionView {
                        digest: c.digest,
                        text: c.claim.content,
                        supersedes: e.kind == EdgeKind::Supersedes,
                    },
                ),
                None => rest,
            }
        } else {
            rest
        }
    }
}

proof fn lemma_claim_of_joined(a: Seq<StoredClaimView>, b: Seq<StoredClaimView>, id: Seq<char>)
    ensures
        memory::claim_of(a + b, id) == (match memory::claim_of(a, id) {
            Some(c) => Some(c),
            None => memory::claim_of(b, id),
        }),
    decreases a.len(),
{
    if a.len() == 0 {
        assert(a + b =~= b);
    } else {
        assert((a + b)[0] == a[0]);
        assert((a + b).drop_first() =~= a.drop_first() + b);
        lemma_claim_of_joined(a.drop_first(), b, id);
    }
}

fn contradictions(fold: &RootFold, id: &Id128) -> (r: Vec<Contradiction>)
    ensures
        value::views(r@) == against(fold@, fold@.edges, id@),
{
    let ghost all = fold@.edges;
    let mut out: Vec<Contradiction> = Vec::new();
    let mut i: usize = 0;
    assert(all.take(0) =~= Seq::empty());
    while i < fold.edges.len()
        invariant
            i <= fold.edges.len(),
            all == value::views(fold.edges@),
            value::views(out@) == against(fold@, all.take(i as int), id@),
        decreases fold.edges.len() - i,
    {
        let e = &fold.edges[i];
        proof {
            assert(all.take(i + 1).last() == e@);
            assert(all.take(i + 1).drop_last() =~= all.take(i as int));
        }
        let targets = match &e.to {
            Some(t) => t.same(id),
            None => false,
        };
        if targets && (e.kind == EdgeKind::Contradicts || e.kind == EdgeKind::Supersedes) {
            proof {
                lemma_claim_of_joined(fold@.claims, fold@.retracted, e@.from);
            }
            let found = match memory::find_claim(&fold.claims, &e.from) {
                Some(c) => Some(c),
                None => memory::find_claim(&fold.retracted, &e.from),
            };
            if let Some(c) = found {
                out.push(
                    Contradiction {
                        digest: c.digest,
                        text: c.claim.content,
                        supersedes: e.kind == EdgeKind::Supersedes,
                    },
                );
            }
        }
        i = i + 1;
    }
    assert(all.take(i as int) =~= all);
    out
}

/// The events that a claim came from.
pub open spec fn sources_of(c: ClaimView) -> Seq<u64> {
    if c.source_event > 0 {
        Seq::empty().push(c.source_event)
    } else {
        Seq::empty()
    }
}

/// The claims that hold in a fold.
pub open spec fn active_ids(fold: RootFoldView) -> Seq<Seq<char>> {
    fold.claims.map_values(|c: StoredClaimView| c.claim.claim_id)
}

fn active_claim_ids(fold: &RootFold) -> (r: Vec<Id128>)
    ensures
        value::views(r@) == active_ids(fold@),
{
    let ghost want = active_ids(fold@);
    let mut out: Vec<Id128> = Vec::new();
    let mut i: usize = 0;
    assert(value::views(out@) =~= want.take(0));
    while i < fold.claims.len()
        invariant
            i <= fold.claims.len(),
            want == active_ids(fold@),
            value::views(out@) == want.take(i as int),
        decreases fold.claims.len() - i,
    {
        out.push(fold.claims[i].claim.claim_id.copy());
        assert(want[i as int] == fold.claims@[i as int]@.claim.claim_id);
        assert(want.take(i + 1) =~= want.take(i as int).push(want[i as int]));
        i = i + 1;
    }
    assert(want.take(i as int) =~= want);
    out
}

/// `status_of` gives `status` for a claim among the claims and edges of the
/// fold.
pub open spec fn validated<S: Fn(Id128, Vec<Id128>, Vec<ClaimEdge>) -> Json>(
    status_of: S,
    fold: RootFoldView,
    id: Seq<char>,
    status: Json,
) -> bool {
    exists|c: Id128, active: Vec<Id128>, edges: Vec<ClaimEdge>|
        c@ == id && value::views(active@) == active_ids(fold) && value::views(edges@)
            == fold.edges && #[trigger] call_ensures(status_of, (c, active, edges), status)
}

/// A salient claim as evidence, with the status that was derived of it.
pub open spec fn as_evidence(
    fold: RootFoldView,
    s: ScoredClaimView,
    status: JsonView,
) -> EvidenceClaimView {
    EvidenceClaimView {
        digest: s.digest,
        text: s.claim.content,
        kind: s.claim.kind,
        sensitivity: s.claim.sensitivity,
        status,
        score: s.score,
        contradictions: against(fold, fold.edges, s.claim.claim_id),
        source_events: sources_of(s.claim),
    }
}

/// The evidence is that of the salient claims, each by itself and in their
/// order.
pub open spec fn is_evidence<S: Fn(Id128, Vec<Id128>, Vec<ClaimEdge>) -> Json>(
    r: Seq<EvidenceClaim>,
    fold: RootFoldView,
    scored: Seq<ScoredClaimView>,
    status_of: S,
) -> bool {
    &&& r.len() == scored.len()
    &&& forall|i: int|
        0 <= i < r.len() ==> {
            &&& (#[trigger] r[i])@ == as_evidence(fold, scored[i], r[i].status@)
            &&& validated(status_of, fold, scored[i].claim.claim_id, r[i].status)
        }
}

/// The salient claims as evidence, each with its status among the claims and
/// edges of the fold, and with what speaks against it.
pub fn evidence<S: Fn(Id128, Vec<Id128>, Vec<ClaimEdge>) -> Json>(
    fold: &RootFold,
    scored: &Vec<ScoredClaim>,
    status_of: &S,
) -> (r: Vec<EvidenceClaim>)
    requires
        forall|c: Id128, a: Vec<Id128>, e: Vec<ClaimEdge>| #[trigger]
            call_requires(*status_of, (c, a, e)),
    ensures
        is_evidence(r@, fold@, value::views(scored@), *status_of),
{
    let ghost all = value::views(scored@);
    let mut out: Vec<EvidenceClaim> = Vec::new();
    let mut i: usize = 0;
    while i < scored.len()
        invariant
            i <= scored.len(),
            all == value::views(scored@),
            forall|c: Id128, a: Vec<Id128>, e: Vec<ClaimEdge>| #[trigger]
                call_requires(*status_of, (c, a, e)),
            is_evidence(out@, fold@, all.take(i as int), *status_of),
        decreases scored.len() - i,
    {
        let x = &scored[i];
        let mut source_events: Vec<u64> = Vec::new();
        if x.claim.source_event > 0 {
            source_events.push(x.claim.source_event);
        }
        assert(source_events@ =~= sources_of(x@.claim));
        let id = x.claim.claim_id.copy();
        let active = active_claim_ids(fold);
        let edges = value::copy_vec(&fold.edges);
        let ghost (g, a, e) = (id, active, edges);
        let status = (*status_of)(id, active, edges);
        assert(call_ensures(*status_of, (g, a, e), status));
        let c = EvidenceClaim {
            digest: x.digest.copy(),
            text: x.claim.content.clone(),
            kind: x.claim.kind.clone(),
            sensitivity: x.claim.sensitivity.clone(),
            status,
            score: x.score.copy(),
            contradictions: contradictions(fold, &x.claim.claim_id),
            source_events,
        };
        assert(c@ == as_evidence(fold@, all[i as int], c.status@));
        assert(validated(*status_of, fold@, all[i as int].claim.claim_id, c.status));
        let ghost before = out@;
        out.push(c);
        proof {
            assert forall|k: int| 0 <= k < out@.len() implies {
                &&& (#[trigger] out@[k])@ == as_evidence(
                    fold@,
                    all.take(i + 1)[k],
                    out@[k].status@,
                )
                &&& validated(
                    *status_of,
                    fold@,
                    all.take(i + 1)[k].claim.claim_id,
                    out@[k].status,
                )
            } by {
                if k < i {
                    assert(out@[k] == before[k]);
                    assert(all.take(i + 1)[k] == all.take(i as int)[k]);
                }
            }
        }
        i = i + 1;
    }
    assert(all.take(i as int) =~= all);
    out
}

// ---------- what woke the run ----------

/// The fragment of a trigger: its referent, or its kind where it has none. It
/// is never empty for a trigger with a kind.
pub open spec fn trigger_shown(t: TriggerView) -> TriggerFragmentView {
    TriggerFragmentView {
        kind: t.kind,
        text: match t.referent {
            Some(d) => d,
            None => t.kind,
        },
        sensitivity: "internal"@,
    }
}

pub fn trigger_fragment(t: &Trigger) -> (r: TriggerFragment)
    ensures
        r@ == trigger_shown(t@),
{
    TriggerFragment {
        kind: t.kind.clone(),
        text: match &t.referent {
            Some(d) => d.text.clone(),
            None => t.kind.clone(),
        },
        sensitivity: "internal".to_owned(),
    }
}

/// What a fragment of a projection comes from.
#[derive(Debug, Clone, PartialEq, Eq)]
pub enum SourceRef {
    Harness,
    ModuleSchema(String),
    SessionEvent(u64),
    MemoryClaim(Digest),
    CompactionRange(u64, u64),
}

/// Whether a source may be read: events only up to the prefix, anything else
/// always.
pub fn source_readable(source: &SourceRef, frozen_seq: u64) -> (r: bool)
    ensures
        r == (*source matches SourceRef::SessionEvent(seq) ==> seq <= frozen_seq),
{
    match source {
        SourceRef::SessionEvent(seq) => *seq <= frozen_seq,
        _ => true,
    }
}

// ---------- the projection ----------

/// What a projection is made of.
#[derive(Debug, Clone, PartialEq, Eq)]
pub struct ProjectionInput {
    pub harness_contract: String,
    pub schemas: Vec<SchemaFragment>,
    pub lifetime: Option<MemorySource>,
    pub project: Option<MemorySource>,
    pub frozen_seq: u64,
    pub selected_ranges: Vec<(u64, u64)>,
    pub events: Vec<RenderedEvent>,
    /// The view of the active memory that the scores came with.
    pub active: Json,
    pub evidence: Vec<EvidenceClaim>,
    pub trigger: TriggerFragment,
    pub max_total_tokens: u64,
    pub max_volatile_tokens: u64,
}

/// How many claims are scored at most.
pub const SALIENCE_TOP: u64 = 32;

/// What the salience of claims is scored by.
#[derive(Debug, Clone, PartialEq, Eq)]
pub struct SalienceInput {
    pub frozen_seq: u64,
    pub recent_causal: Vec<u64>,
    pub open_loops: Vec<String>,
    pub pins: Vec<Digest>,
    pub fold: RootFold,
    pub top_n: u64,
}

/// Makes what the claims of a run are scored by: the prefix and its events on
/// the path, what is open and pinned, and the fold that the run may see.
pub fn salience_input(
    next_seq: u64,
    child: bool,
    recent: &Vec<RecentEvent>,
    state: &BranchState,
    open_loops: &Vec<String>,
    pins: &Vec<Digest>,
    lifetime_fold: &Option<RootFold>,
    project_fold: &Option<RootFold>,
) -> (r: SalienceInput)
    ensures
        r.frozen_seq == frozen(next_seq),
        r.recent_causal@ == causal(value::views(recent@), state@.records),
        value::views(r.open_loops@) == value::views(open_loops@),
        value::views(r.pins@) == value::views(pins@),
        r.fold@ == salient(child, value::opt_view(*lifetime_fold), value::opt_view(*project_fold)),
        r.top_n == SALIENCE_TOP,
{
    SalienceInput {
        frozen_seq: frozen_seq(next_seq),
        recent_causal: recent_causal(recent, state),
        open_loops: value::copy_vec(open_loops),
        pins: value::copy_vec(pins),
        fold: salience_fold(child, lifetime_fold, project_fold),
        top_n: SALIENCE_TOP,
    }
}

/// Makes the input of a projection. The roots are those of
/// [`roots_to_fold`], the folds what they fold to, `active` and `scored` what
/// came of scoring [`salience_input`].
pub fn project_context<
    F: Fn(Vec<u8>) -> Digest,
    S: Fn(Id128, Vec<Id128>, Vec<ClaimEdge>) -> Json,
>(
    next_seq: u64,
    child: bool,
    registry: &Json,
    recent: &Vec<RecentEvent>,
    state: &BranchState,
    lifetime_root: &Option<Digest>,
    lifetime_fold: &Option<RootFold>,
    project_root: &Option<Digest>,
    project_fold: &Option<RootFold>,
    active: Json,
    scored: &Vec<ScoredClaim>,
    trigger: &Trigger,
    digest_of: &F,
    status_of: &S,
) -> (r: ProjectionInput)
    requires
        branch::room_after(state@.records),
        forall|b: Vec<u8>| #[trigger] call_requires(*digest_of, (b,)),
        forall|c: Id128, a: Vec<Id128>, e: Vec<ClaimEdge>| #[trigger]
            call_requires(*status_of, (c, a, e)),
    ensures
        r.harness_contract@ == HARNESS_CONTRACT@,
        r.schemas@.len() == listed_schemas(registry@).len(),
        forall|i: int|
            0 <= i < r.schemas@.len() ==> is_fragment(
                #[trigger] r.schemas@[i],
                listed_schemas(registry@)[i],
                *digest_of,
            ),
        value::opt_view(r.lifetime) == lifetime_fragment(
            child,
            value::opt_view(*lifetime_root),
            value::opt_view(*lifetime_fold),
        ),
        value::opt_view(r.project) == fragment(
            value::opt_view(*project_root),
            value::opt_view(*project_fold),
        ),
        r.frozen_seq == frozen(next_seq),
        r.selected_ranges@ == selected(state@.records, next_seq),
        value::views(r.events@) == prefix_events(
            value::views(recent@),
            state@.records,
            next_seq,
        ),
        r.active@ == active@,
        is_evidence(
            r.evidence@,
            salient(child, value::opt_view(*lifetime_fold), value::opt_view(*project_fold)),
            value::views(scored@),
            *status_of,
        ),
        r.trigger@ == trigger_shown(trigger@),
        r.max_total_tokens == MAX_TOTAL_TOKENS,
        r.max_volatile_tokens == MAX_VOLATILE_TOKENS,
{
    let fold = salience_fold(child, lifetime_fold, project_fold);
    let lifetime = if child {
        None
    } else {
        fragment_of(lifetime_root, lifetime_fold)
    };
    ProjectionInput {
        harness_contract: HARNESS_CONTRACT.to_owned(),
        schemas: schema_fragments(registry, digest_of),
        lifetime,
        project: fragment_of(project_root, project_fold),
        frozen_seq: frozen_seq(next_seq),
        selected_ranges: selected_ranges(state, next_seq),
        events: trajectory_events(recent, state, next_seq),
        active,
        evidence: evidence(&fold, scored, status_of),
        trigger: trigger_fragment(trigger),
        max_total_tokens: MAX_TOTAL_TOKENS,
        max_volatile_tokens: MAX_VOLATILE_TOKENS,
    }
}

pub open spec fn contents(s: Seq<MessageView>) -> Seq<Seq<char>> {
    s.map_values(|m: MessageView| m.content)
}

/// What a run reads: the contents of the lowered messages.
pub open spec fn rendered_text(s: Seq<MessageView>) -> Seq<char> {
    text::join_text(contents(s), "\n\n"@)
}

fn rendered_messages(lowered: &Vec<Message>) -> (r: String)
    ensures
        r@ == rendered_text(value::views(lowered@)),
{
    let ghost want = contents(value::views(lowered@));
    let mut parts: Vec<String> = Vec::new();
    let mut i: usize = 0;
    assert(text::texts(parts@) =~= want.take(0));
    while i < lowered.len()
        invariant
            i <= lowered.len(),
            want == contents(value::views(lowered@)),
            text::texts(parts@) == want.take(i as int),
        decreases lowered.len() - i,
    {
        let ghost before = text::texts(parts@);
        parts.push(lowered[i].content.clone());
        assert(text::texts(parts@) =~= before.push(want[i as int]));
        assert(want.take(i + 1) =~= want.take(i as int).push(want[i as int]));
        i = i + 1;
    }
    assert(want.take(i as int) =~= want);
    text::join(&parts, "\n\n")
}

/// The projection that a run works from, once it was lowered: what is kept of
/// it for the model call, and the context of the run. A child works within
/// the budgets that were recorded of it, any other run within the session's.
pub fn projected<F: Fn(Vec<u8>) -> Digest>(
    projection_digest: &Digest,
    cache_plan: CachePlan,
    lowered: Vec<Message>,
    selected_events: Vec<u64>,
    lifetime_root: &Option<Digest>,
    project_root: &Option<Digest>,
    child: bool,
    recorded: Option<Budgets>,
    session: Budgets,
    digest_of: &F,
) -> (r: (ProjectionState, StepContext))
    requires
        forall|b: Vec<u8>| #[trigger] call_requires(*digest_of, (b,)),
    ensures
        r.0@ == (ProjectionStateView {
            projection_digest: projection_digest@,
            cache_plan: cache_plan@,
            memory_roots: model::flattened(
                value::opt_view(*lifetime_root),
                value::opt_view(*project_root),
            ),
            lowered: value::views(lowered@),
        }),
        r.1@ == (StepContextView {
            rendered: rendered_text(value::views(lowered@)),
            rendered_hash: r.1.rendered_hash@,
            selected_events: selected_events@,
            budget: runs::budgets_of(child, recorded, session),
            projection_digest: Some(projection_digest@),
            memory_roots: r.0@.memory_roots,
        }),
        digested(*digest_of, r.1.rendered@, r.1.rendered_hash),
{
    let rendered = rendered_messages(&lowered);
    let bytes = rendered.as_str().as_bytes_vec();
    let rendered_hash = (*digest_of)(bytes);
    assert(call_ensures(*digest_of, (bytes,), rendered_hash));
    assert(digested(*digest_of, rendered@, rendered_hash));
    let roots = model::flatten(lifetime_root, project_root);
    let memory_roots = value::copy_vec(&roots);
    let state = ProjectionState {
        projection_digest: projection_digest.copy(),
        cache_plan,
        memory_roots: roots,
        lowered,
    };
    let context = StepContext {
        rendered,
        rendered_hash,
        selected_events,
        budget: runs::run_budgets(child, recorded, session),
        projection_digest: Some(projection_digest.copy()),
        memory_roots,
    };
    (state, context)
}

// ---------- laws ----------

/// Abandoned tails never enter a projection.
pub proof fn law_projections_stay_on_the_path(
    recent: Seq<RecentEventView>,
    records: Seq<BranchRecordView>,
    next_seq: u64,
    i: int,
)
    requires
        0 <= i < prefix_events(recent, records, next_seq).len(),
    ensures
        branch::is_on_path(records, prefix_events(recent, records, next_seq)[i].seq),
{
    lemma_shown_on_path(recent, records, i);
}

proof fn lemma_shown_on_path(recent: Seq<RecentEventView>, records: Seq<BranchRecordView>, i: int)
    requires
        0 <= i < shown_events(recent, records).len(),
    ensures
        branch::is_on_path(records, shown_events(recent, records)[i].seq),
    decreases recent.len(),
{
    let rest = shown_events(recent.drop_last(), records);
    if i < rest.len() {
        lemma_shown_on_path(recent.drop_last(), records, i);
    }
}

/// The prefix never claims to cover what it does not: every range lies within
/// the frozen prefix.
pub proof fn law_ranges_stay_in_the_prefix(records: Seq<BranchRecordView>, next_seq: u64, i: int)
    requires
        0 <= i < selected(records, next_seq).len(),
    ensures
        1 <= selected(records, next_seq)[i].0 <= selected(records, next_seq)[i].1 <= frozen(
            next_seq,
        ),
{
    lemma_covered(branch::stretches(records), frozen(next_seq), i);
}

proof fn lemma_covered(s: Seq<(u64, u64)>, end: u64, i: int)
    requires
        0 <= i < covered(s, end).len(),
    ensures
        1 <= covered(s, end)[i].0 <= covered(s, end)[i].1 <= end,
    decreases s.len(),
{
    let rest = covered(s.drop_last(), end);
    if i < rest.len() {
        lemma_covered(s.drop_last(), end, i);
    }
}

/// A child sees no lifetime memory: no fragment of it, and no claim of it as
/// evidence.
pub proof fn law_children_are_shown_no_lifetime_memory(
    root: Option<Seq<char>>,
    lifetime: Option<RootFoldView>,
    other: Option<RootFoldView>,
    project: Option<RootFoldView>,
)
    ensures
        lifetime_fragment(true, root, lifetime) is None,
        salient(true, lifetime, project) == salient(true, other, project),
{
}

/// A shown event is bounded, whatever its payload.
pub proof fn law_shown_events_are_bounded(e: RecentEventView)
    ensures
        text::byte_len(shown(e).text) <= EVENT_TEXT_MAX,
{
    text::lemma_clipped_fits(json::json_text(e.payload), EVENT_TEXT_MAX as nat);
}

/// A pinned branch folds its pinned roots, wherever the heads are.
pub proof fn law_pins_hold_whatever_the_heads(
    p: PinnedRootsView,
    a: Option<Seq<char>>,
    b: Option<Seq<char>>,
)
    ensures
        lifetime_root(Some(p), a) == lifetime_root(Some(p), b),
        project_root(Some(p), a) == project_root(Some(p), b),
{
}

/// An event on the path is shown with its seq, its kind and its document: the
/// whole document where it takes at most 512 bytes, else as much of its start as
/// fits. An event off the path is not shown, and before the first commit nothing
/// is. What is shown of an event does not depend on the others.
pub proof fn law_events_are_shown_with_their_documents(
    recent: Seq<RecentEventView>,
    e: RecentEventView,
    records: Seq<BranchRecordView>,
    next_seq: u64,
)
    ensures
        prefix_events(Seq::empty(), records, next_seq).len() == 0,
        next_seq <= 1 ==> prefix_events(recent.push(e), records, next_seq).len() == 0,
        next_seq > 1 && !branch::is_on_path(records, e.seq) ==> prefix_events(
            recent.push(e),
            records,
            next_seq,
        ) == prefix_events(recent, records, next_seq),
        next_seq > 1 && branch::is_on_path(records, e.seq) ==> ({
            let before = prefix_events(recent, records, next_seq);
            let after = prefix_events(recent.push(e), records, next_seq);
            let document = json::json_text(e.payload);
            &&& after.len() == before.len() + 1
            &&& after.drop_last() == before
            &&& after.last().seq == e.seq
            &&& after.last().kind == e.kind
            &&& after.last().text.is_prefix_of(document)
            &&& text::byte_len(document) <= 512 ==> after.last().text == document
            &&& text::byte_len(after.last().text) <= 512
            &&& forall|m: int|
                after.last().text.len() < m <= document.len() ==> text::byte_len(
                    #[trigger] document.take(m),
                ) > 512
        }),
{
    assert(recent.push(e).drop_last() =~= recent);
    let document = json::json_text(e.payload);
    text::lemma_clipped_fits(document, EVENT_TEXT_MAX as nat);
    text::lemma_clipped_is_longest(document, EVENT_TEXT_MAX as nat);
    if next_seq > 1 && branch::is_on_path(records, e.seq) {
        let before = prefix_events(recent, records, next_seq);
        let after = prefix_events(recent.push(e), records, next_seq);
        assert(after == before.push(shown(e)));
        assert(after.drop_last() =~= before);
    }
}

/// Events with different short documents are shown differently.
pub proof fn law_different_documents_are_shown_apart(a: RecentEventView, b: RecentEventView)
    requires
        json_laws::is_valid(a.payload),
        json_laws::is_valid(b.payload),
        a.payload != b.payload,
        text::byte_len(json::json_text(a.payload)) <= 512,
        text::byte_len(json::json_text(b.payload)) <= 512,
    ensures
        shown(a).text != shown(b).text,
{
    if shown(a).text == shown(b).text {
        json_laws::law_texts_tell_values_apart(a.payload, b.payload);
    }
}

/// The causal seqs are those of the shown events, in their order.
pub proof fn law_causal_seqs_are_those_shown(
    recent: Seq<RecentEventView>,
    records: Seq<BranchRecordView>,
    next_seq: u64,
)
    requires
        next_seq > 1,
    ensures
        causal(recent, records) == prefix_events(recent, records, next_seq).map_values(
            |e: RenderedEventView| e.seq,
        ),
    decreases recent.len(),
{
    if recent.len() == 0 {
        assert(prefix_events(recent, records, next_seq).map_values(|e: RenderedEventView| e.seq)
            =~= causal(recent, records));
    } else {
        let d = recent.drop_last();
        law_causal_seqs_are_those_shown(d, records, next_seq);
        assert(prefix_events(recent, records, next_seq).map_values(|e: RenderedEventView| e.seq)
            =~= causal(recent, records));
    }
}

proof fn lemma_covered_seqs(s: Seq<(u64, u64)>, end: u64, seq: u64)
    ensures
        (exists|k: int|
            0 <= k < covered(s, end).len() && (#[trigger] covered(s, end)[k]).0 <= seq && seq
                <= covered(s, end)[k].1) <==> 1 <= seq <= end && exists|k: int|
            0 <= k < s.len() && (#[trigger] s[k]).0 <= seq && seq <= s[k].1,
    decreases s.len(),
{
    if s.len() > 0 {
        let d = s.drop_last();
        lemma_covered_seqs(d, end, seq);
        let c = covered(s, end);
        let rest = covered(d, end);
        if exists|k: int| 0 <= k < c.len() && (#[trigger] c[k]).0 <= seq && seq <= c[k].1 {
            let k = choose|k: int| 0 <= k < c.len() && (#[trigger] c[k]).0 <= seq && seq <= c[k].1;
            if k < rest.len() {
                assert(rest[k] == c[k]);
                let j = choose|j: int| 0 <= j < d.len() && (#[trigger] d[j]).0 <= seq && seq
                    <= d[j].1;
                assert(s[j] == d[j]);
            } else {
                assert(s[s.len() - 1] == s.last());
            }
        }
        if 1 <= seq <= end && exists|k: int|
            0 <= k < s.len() && (#[trigger] s[k]).0 <= seq && seq <= s[k].1 {
            let k = choose|k: int| 0 <= k < s.len() && (#[trigger] s[k]).0 <= seq && seq <= s[k].1;
            if k < d.len() {
                assert(d[k] == s[k]);
                let j = choose|j: int|
                    0 <= j < rest.len() && (#[trigger] rest[j]).0 <= seq && seq <= rest[j].1;
                assert(c[j] == rest[j]);
            } else {
                assert(c[c.len() - 1].0 <= seq && seq <= c[c.len() - 1].1);
            }
        }
    }
}

/// Where branches ascend, the ranges hold exactly the committed events on the
/// path.
pub proof fn law_ranges_are_the_committed_path(
    records: Seq<BranchRecordView>,
    next_seq: u64,
    seq: u64,
)
    requires
        branch::room_after(records),
        branch::ascending(records),
    ensures
        (exists|k: int|
            0 <= k < selected(records, next_seq).len() && (#[trigger] selected(
                records,
                next_seq,
            )[k]).0 <= seq && seq <= selected(records, next_seq)[k].1) <==> 1 <= seq < next_seq
            && branch::is_on_path(records, seq),
{
    let s = branch::stretches(records);
    if next_seq > 1 {
        let end = frozen(next_seq);
        let c = covered(s, end);
        assert(selected(records, next_seq) == c);
        lemma_covered_seqs(s, end, seq);
        if 1 <= seq < next_seq && branch::is_on_path(records, seq) {
            let i = branch::law_stretches_cover_the_path(records, seq);
            assert(s[i].0 <= seq && seq <= s[i].1);
            let k = choose|k: int| 0 <= k < c.len() && (#[trigger] c[k]).0 <= seq && seq <= c[k].1;
            assert(selected(records, next_seq)[k].0 <= seq);
        }
        if exists|k: int| 0 <= k < c.len() && (#[trigger] c[k]).0 <= seq && seq <= c[k].1 {
            let k = choose|k: int| 0 <= k < s.len() && (#[trigger] s[k]).0 <= seq && seq <= s[k].1;
            branch::law_stretches_are_the_path(records, seq, k);
        }
    } else {
        assert(selected(records, next_seq).len() == 0);
    }
}

/// A pinned branch folds exactly the roots that it is pinned to, no project where
/// none is pinned; any other folds the heads.
pub proof fn law_branches_fold_their_own_roots(
    p: PinnedRootsView,
    lifetime: Option<Seq<char>>,
    project: Option<Seq<char>>,
)
    ensures
        lifetime_root(Some(p), lifetime) == Some(p.lifetime),
        project_root(Some(p), project) == p.project,
        lifetime_root(None, lifetime) == lifetime,
        project_root(None, project) == project,
{
}

/// The claims of the project are what salience is taken from. Without a project,
/// a child has nothing and any other run the lifetime memory.
pub proof fn law_salience_prefers_the_project(
    child: bool,
    lifetime: Option<RootFoldView>,
    project: RootFoldView,
)
    ensures
        salient(child, lifetime, Some(project)) == project,
        salient(true, lifetime, None).claims.len() == 0,
        salient(true, lifetime, None).edges.len() == 0,
        lifetime matches Some(f) ==> salient(false, lifetime, None) == f,
        lifetime is None ==> salient(false, lifetime, None).claims.len() == 0,
{
}

/// A scope with claims is shown with all of them; one without, or without a root,
/// is not shown.
pub proof fn law_scopes_with_claims_are_shown(root: Seq<char>, fold: RootFoldView)
    ensures
        fold.claims.len() > 0 ==> (fragment(Some(root), Some(fold)) matches Some(m) && m.root
            == root && m.claim_digests == fold.claims.map_values(|c: StoredClaimView| c.digest)),
        fold.claims.len() == 0 ==> fragment(Some(root), Some(fold)) is None,
        fragment(None, Some(fold)) is None,
        fragment(Some(root), None) is None,
        lifetime_fragment(false, Some(root), Some(fold)) == fragment(Some(root), Some(fold)),
{
    assert(memory::digests_of(fold.claims) =~= fold.claims.map_values(
        |c: StoredClaimView| c.digest,
    ));
}

/// What contradicts or supersedes a claim speaks against it, with the digest and
/// the content of the claim that it comes from, retracted or not; no other edge
/// does.
pub proof fn law_every_contradiction_is_shown(
    fold: RootFoldView,
    edges: Seq<ClaimEdgeView>,
    e: ClaimEdgeView,
    id: Seq<char>,
)
    ensures
        against(fold, Seq::empty(), id).len() == 0,
        ({
            let before = against(fold, edges, id);
            let after = against(fold, edges.push(e), id);
            let from = memory::claim_of(fold.claims + fold.retracted, e.from);
            if e.to == Some(id) && (e.kind == EdgeKind::Contradicts || e.kind
                == EdgeKind::Supersedes) && from is Some {
                &&& after.len() == before.len() + 1
                &&& after.drop_last() == before
                &&& after.last().digest == from->0.digest
                &&& after.last().text == from->0.claim.content
                &&& after.last().supersedes == (e.kind == EdgeKind::Supersedes)
            } else {
                after == before
            }
        }),
{
    assert(edges.push(e).drop_last() =~= edges);
    let before = against(fold, edges, id);
    let after = against(fold, edges.push(e), id);
    if after.len() > before.len() {
        assert(after.drop_last() =~= before);
    }
}

/// Evidence shows a claim as it was found: its digest, content, kind,
/// sensitivity and score, and the event that it came from.
pub proof fn law_evidence_shows_the_claim(fold: RootFoldView, s: ScoredClaimView, status: JsonView)
    ensures
        ({
            let e = as_evidence(fold, s, status);
            &&& e.digest == s.digest
            &&& e.text == s.claim.content
            &&& e.kind == s.claim.kind
            &&& e.sensitivity == s.claim.sensitivity
            &&& e.status == status
            &&& e.score == s.score
            &&& e.contradictions == against(fold, fold.edges, s.claim.claim_id)
            &&& s.claim.source_event > 0 ==> e.source_events == seq![s.claim.source_event]
            &&& s.claim.source_event == 0 ==> e.source_events.len() == 0
        }),
{
    assert(s.claim.source_event > 0 ==> sources_of(s.claim) =~= seq![s.claim.source_event]);
}

/// What woke a run is shown by what it refers to, or by its kind.
pub proof fn law_triggers_show_what_they_refer_to(t: TriggerView)
    ensures
        trigger_shown(t).kind == t.kind,
        t.referent matches Some(d) ==> trigger_shown(t).text == d,
        t.referent is None ==> trigger_shown(t).text == t.kind,
{
}

/// A run reads the contents of all its messages, one after the other.
pub proof fn law_runs_read_every_message(s: Seq<MessageView>, m: MessageView)
    ensures
        rendered_text(Seq::empty().push(m)) == m.content,
        s.len() > 0 ==> rendered_text(s.push(m)) == rendered_text(s) + "\n\n"@ + m.content,
{
    assert(contents(s.push(m)) =~= contents(s).push(m.content));
    assert(contents(s.push(m)).drop_last() =~= contents(s));
    let single = contents(Seq::empty().push(m));
    assert(single =~= seq![m.content]);
}

/// A schema is shown whole, under its name and as public, with the digest of
/// what is shown; only a list has schemas.
pub proof fn law_schemas_are_shown_whole<F: Fn(Vec<u8>) -> Digest>(
    f: SchemaFragment,
    schema: JsonView,
    digest_of: F,
    items: Seq<JsonView>,
)
    requires
        is_fragment(f, schema, digest_of),
    ensures
        f.text@ == json::json_text(schema),
        f.sensitivity@ == "public"@,
        json::member(schema, "name"@) matches Some(JsonView::Text(t)) ==> f.id@ == t,
        !(json::member(schema, "name"@) matches Some(JsonView::Text(_))) ==> f.id@.len() == 0,
        exists|b: Vec<u8>|
            b@ == encode_utf8(f.text@) && #[trigger] call_ensures(digest_of, (b,), f.digest),
        listed_schemas(JsonView::List(items)) == items,
        !(schema is List) ==> listed_schemas(schema).len() == 0,
{
    let b = choose|b: Vec<u8>|
        b@ == encode_utf8(f.text@) && #[trigger] call_ensures(digest_of, (b,), f.digest);
    assert(call_ensures(digest_of, (b,), f.digest));
}

/// Every claim that was scored is shown as evidence, in order, with a status
/// that was asked for it among all that hold.
pub proof fn law_scored_claims_are_evidence<S: Fn(Id128, Vec<Id128>, Vec<ClaimEdge>) -> Json>(
    r: Seq<EvidenceClaim>,
    fold: RootFoldView,
    scored: Seq<ScoredClaimView>,
    status_of: S,
    i: int,
)
    requires
        is_evidence(r, fold, scored, status_of),
        0 <= i < scored.len(),
    ensures
        r.len() == scored.len(),
        r[i]@ == as_evidence(fold, scored[i], r[i].status@),
        exists|c: Id128, active: Vec<Id128>, edges: Vec<ClaimEdge>|
            c@ == scored[i].claim.claim_id && value::views(edges@) == fold.edges && (forall|k: int|
                0 <= k < fold.claims.len() ==> value::views(active@)[k]
                    == (#[trigger] fold.claims[k]).claim.claim_id) && value::views(active@).len()
                == fold.claims.len() && #[trigger] call_ensures(
                status_of,
                (c, active, edges),
                r[i].status,
            ),
{
    assert(r[i]@ == as_evidence(fold, scored[i], r[i].status@));
    assert(validated(status_of, fold, scored[i].claim.claim_id, r[i].status));
    let (c, active, edges) = choose|c: Id128, active: Vec<Id128>, edges: Vec<ClaimEdge>|
        c@ == scored[i].claim.claim_id && value::views(active@) == active_ids(fold) && value::views(
            edges@,
        ) == fold.edges && #[trigger] call_ensures(status_of, (c, active, edges), r[i].status);
    assert(call_ensures(status_of, (c, active, edges), r[i].status));
    assert forall|k: int| 0 <= k < fold.claims.len() implies value::views(active@)[k] == (
    #[trigger] fold.claims[k]).claim.claim_id by {
        assert(active_ids(fold)[k] == fold.claims[k].claim.claim_id);
    }
}

} // verus!
