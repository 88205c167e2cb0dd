//! The memory tools and child runs: what a request says, what it is refused
//! for, and what is recorded and returned.
use vstd::prelude::*;
use vstd::string::*;
use crate::branch::{PinnedRoots, PinnedRootsView};
use crate::event;
use crate::event::{Codec, CodecView, Event, EventView};
use crate::ids::{Digest, Id128};
use crate::json;
use crate::json::{Json, JsonView};
use crate::memory;
use crate::memory::{
    MemoryScope, MemoryScopeView, RootFold, RootFoldView, StoredClaim, StoredClaimView,
};
use crate::projection;
use crate::runs::Budgets;
use crate::text;
use crate::tools;
use crate::tools::{ToolIntent, ToolIntentView, ToolOutcome, ToolOutcomeView};
use crate::transition;
use crate::transition::{TransitionKind, TransitionRequest, TransitionRequestView};
use crate::value;
use crate::value::Value;

verus! {

broadcast use value::group_views;

/// The event that a claim of this intent comes from.
pub open spec fn source_event(intent: ToolIntentView) -> u64 {
    match intent.intent_event {
        Some(seq) => seq,
        None => 0,
    }
}

pub fn claim_source(intent: &ToolIntent) -> (r: u64)
    ensures
        r == source_event(intent@),
{
    match intent.intent_event {
        Some(seq) => seq,
        None => 0,
    }
}

// ---------- memory.query ----------

/// A scope to index, at a root.
#[derive(Debug, Clone, PartialEq, Eq)]
pub struct IndexInput {
    pub scope: MemoryScope,
    pub root: Digest,
}

pub struct IndexInputView {
    pub scope: MemoryScopeView,
    pub root: Seq<char>,
}

impl View for IndexInput {
    type V = IndexInputView;

    open spec fn view(&self) -> IndexInputView {
        IndexInputView {
            scope: self.scope@,
            root: self.root@,
        }
    }
}

/// A search: the text, the scopes it may see, and what the index is brought up to.
#[derive(Debug, Clone, PartialEq, Eq)]
pub struct QueryPlan {
    pub query: String,
    pub scopes: Vec<MemoryScope>,
    pub max_results: u64,
    pub index: Vec<IndexInput>,
}

pub struct QueryPlanView {
    pub query: Seq<char>,
    pub scopes: Seq<MemoryScopeView>,
    pub max_results: u64,
    pub index: Seq<IndexInputView>,
}

impl View for QueryPlan {
    type V = QueryPlanView;

    open spec fn view(&self) -> QueryPlanView {
        QueryPlanView {
            query: self.query@,
            scopes: value::views(self.scopes@),
            max_results: self.max_results,
            index: value::views(self.index@),
        }
    }
}

/// The scopes that a run may search: its project, and for a run that is no
/// child the lifetime scope too.
pub open spec fn may_search(name: Seq<char>, project: bool, is_child: bool) -> bool {
    (name == "project"@ && project) || (name == "lifetime"@ && !is_child)
}

pub open spec fn scope_named(name: Seq<char>, project: Option<Seq<char>>) -> MemoryScopeView {
    if name == "project"@ && project is Some {
        MemoryScopeView::Project(project->0)
    } else {
        MemoryScopeView::Lifetime
    }
}

/// The requested scopes that the run may search, in the order requested.
pub open spec fn granted_scopes(
    names: Seq<JsonView>,
    project: Option<Seq<char>>,
    is_child: bool,
) -> Seq<MemoryScopeView>
    decreases names.len(),
{
    if names.len() == 0 {
        Seq::empty()
    } else {
        let rest = granted_scopes(names.drop_last(), project, is_child);
        match names.last() {
            JsonView::Text(name) => if may_search(name, project is Some, is_child) {
                rest.push(scope_named(name, project))
            } else {
                rest
            },
            _ => rest,
        }
    }
}

/// All scopes that the run may search, the project first.
pub open spec fn all_scopes(project: Option<Seq<char>>, is_child: bool) -> Seq<MemoryScopeView> {
    let first = match project {
        Some(id) => Seq::empty().push(MemoryScopeView::Project(id)),
        None => Seq::<MemoryScopeView>::empty(),
    };
    if is_child {
        first
    } else {
        first.push(MemoryScopeView::Lifetime)
    }
}

pub open spec fn searched_scopes(
    args: JsonView,
    project: Option<Seq<char>>,
    is_child: bool,
) -> Seq<MemoryScopeView> {
    match json::member(args, "scopes"@) {
        Some(JsonView::List(names)) => granted_scopes(names, project, is_child),
        _ => all_scopes(project, is_child),
    }
}

/// What the index is brought up to: each scope that has a root.
pub open spec fn index_inputs(
    project: Option<Seq<char>>,
    lifetime: Option<Seq<char>>,
    of_project: Option<Seq<char>>,
) -> Seq<IndexInputView> {
    let first = match lifetime {
        Some(root) => Seq::empty().push(
            IndexInputView { scope: MemoryScopeView::Lifetime, root },
        ),
        None => Seq::<IndexInputView>::empty(),
    };
    match (project, of_project) {
        (Some(id), Some(root)) => first.push(
            IndexInputView { scope: MemoryScopeView::Project(id), root },
        ),
        _ => first,
    }
}

pub open spec fn query_plan(
    args: JsonView,
    project: Option<Seq<char>>,
    is_child: bool,
    pinned: Option<PinnedRootsView>,
    lifetime_head: Option<Seq<char>>,
    project_head: Option<Seq<char>>,
) -> Result<QueryPlanView, Seq<char>> {
    match json::text_member(args, "query"@) {
        Some(query) => Ok(
            QueryPlanView {
                query,
                scopes: searched_scopes(args, project, is_child),
                max_results: match json::unsigned_member(args, "max_results"@) {
                    Some(n) => n,
                    None => 16,
                },
                index: index_inputs(
                    project,
                    projection::lifetime_root(pinned, lifetime_head),
                    projection::project_root(pinned, project_head),
                ),
            },
        ),
        None => Err("memory.query requires a string query"@),
    }
}

fn scopes_granted(names: &Vec<Json>, project: &Option<Id128>, is_child: bool) -> (r: Vec<
    MemoryScope,
>)
    ensures
        value::views(r@) == granted_scopes(
            value::views(names@),
            value::opt_view(*project),
            is_child,
        ),
{
    let ghost all = value::views(names@);
    let mut out: Vec<MemoryScope> = Vec::new();
    let mut i: usize = 0;
    assert(all.take(0) =~= Seq::empty());
    while i < names.len()
        invariant
            i <= names.len(),
            all == value::views(names@),
            value::views(out@) == granted_scopes(
                all.take(i as int),
                value::opt_view(*project),
                is_child,
            ),
        decreases names.len() - i,
    {
        proof {
            assert(all.take(i + 1).last() == names@[i as int]@);
            assert(all.take(i + 1).drop_last() =~= all.take(i as int));
            reveal_strlit("project");
            reveal_strlit("lifetime");
            assert("project"@.len() != "lifetime"@.len());
        }
        if let Json::Text(name) = &names[i] {
            if text::same_text(name.as_str(), "project") {
                if let Some(id) = project {
                    out.push(MemoryScope::Project(id.copy()));
                }
            } else if text::same_text(name.as_str(), "lifetime") {
                if !is_child {
                    out.push(MemoryScope::Lifetime);
                }
            }
        }
        i = i + 1;
    }
    assert(all.take(i as int) =~= all);
    out
}

/// Plans a search; the error text where the request is refused.
pub fn plan_memory_query(
    args: &Json,
    project: &Option<Id128>,
    is_child: bool,
    pinned: &Option<PinnedRoots>,
    lifetime_head: &Option<Digest>,
    project_head: &Option<Digest>,
) -> (r: Result<QueryPlan, String>)
    ensures
        ({
            let plan = query_plan(
                args@,
                value::opt_view(*project),
                is_child,
                value::opt_view(*pinned),
                value::opt_view(*lifetime_head),
                value::opt_view(*project_head),
            );
            match r {
                Ok(p) => plan == Ok::<QueryPlanView, Seq<char>>(p@),
                Err(e) => plan == Err::<QueryPlanView, Seq<char>>(e@),
            }
        }),
{
    let query = match args.get_text("query") {
        Some(q) => q.clone(),
        None => return Err("memory.query requires a string query".to_owned()),
    };
    let scopes = match args.get("scopes") {
        Some(Json::List(names)) => {
            proof {
                json::lemma_list_view(names@);
            }
            scopes_granted(names, project, is_child)
        },
        _ => {
            let mut out: Vec<MemoryScope> = Vec::new();
            if let Some(id) = project {
                out.push(MemoryScope::Project(id.copy()));
            }
            if !is_child {
                out.push(MemoryScope::Lifetime);
            }
            out
        },
    };
    let max_results = match args.get_unsigned("max_results") {
        Some(n) => n,
        None => 16,
    };
    let mut index: Vec<IndexInput> = Vec::new();
    let (lifetime, of_project) = projection::roots_to_fold(pinned, lifetime_head, project_head);
    if let Some(root) = lifetime {
        index.push(IndexInput { scope: MemoryScope::Lifetime, root });
    }
    if let Some(id) = project {
        if let Some(root) = of_project {
            index.push(IndexInput { scope: MemoryScope::Project(id.copy()), root });
        }
    }
    Ok(QueryPlan { query, scopes, max_results, index })
}

/// A claim that speaks against another.
#[derive(Debug, Clone, PartialEq, Eq)]
pub struct Contradiction {
    pub digest: Digest,
    pub text: String,
    pub supersedes: bool,
}

pub struct ContradictionView {
    pub digest: Seq<char>,
    pub text: Seq<char>,
    pub supersedes: bool,
}

impl View for Contradiction {
    type V = ContradictionView;

    open spec fn view(&self) -> ContradictionView {
        ContradictionView {
            digest: self.digest@,
            text: self.text@,
            supersedes: self.supersedes,
        }
    }
}

impl Value for Contradiction {
    fn copy(&self) -> (r: Self) {
        Contradiction {
            digest: self.digest.copy(),
            text: self.text.copy(),
            supersedes: self.supersedes,
        }
    }

    fn same(&self, other: &Self) -> (r: bool) {
        self.digest.same(&other.digest)
            && self.text.same(&other.text)
            && self.supersedes == other.supersedes
    }
}

/// A claim that a search found. Status and score are as the index gives them.
#[derive(Debug, Clone, PartialEq, Eq)]
pub struct FoundClaim {
    pub digest: Digest,
    pub text: String,
    pub kind: String,
    pub sensitivity: String,
    pub status: Json,
    pub score: Json,
    pub contradictions: Vec<Contradiction>,
    pub source_events: Vec<u64>,
}

pub struct FoundClaimView {
    pub digest: Seq<char>,
    pub text: Seq<char>,
    pub kind: Seq<char>,
    pub sensitivity: Seq<char>,
    pub status: JsonView,
    pub score: JsonView,
    pub contradictions: Seq<ContradictionView>,
    pub source_events: Seq<u64>,
}

impl View for FoundClaim {
    type V = FoundClaimView;

    open spec fn view(&self) -> FoundClaimView {
        FoundClaimView {
            digest: self.digest@,
            text: self.text@,
            kind: self.kind@,
            sensitivity: self.sensitivity@,
            status: self.status@,
            score: self.score@,
            contradictions: value::views(self.contradictions@),
            source_events: self.source_events@,
        }
    }
}

/// An entity that a query named.
#[derive(Debug, Clone, PartialEq, Eq)]
pub struct FoundEntity {
    pub key: String,
    pub kind: String,
}

pub struct FoundEntityView {
    pub key: Seq<char>,
    pub kind: Seq<char>,
}

impl View for FoundEntity {
    type V = FoundEntityView;

    open spec fn view(&self) -> FoundEntityView {
        FoundEntityView {
            key: self.key@,
            kind: self.kind@,
        }
    }
}

/// What a search gave.
#[derive(Debug, Clone, PartialEq, Eq)]
pub struct SearchResult {
    pub claims: Vec<FoundClaim>,
    pub query_entities: Vec<FoundEntity>,
    pub fts_used: Json,
    pub expanded: Json,
}

pub struct SearchResultView {
    pub claims: Seq<FoundClaimView>,
    pub query_entities: Seq<FoundEntityView>,
    pub fts_used: JsonView,
    pub expanded: JsonView,
}

impl View for SearchResult {
    type V = SearchResultView;

    open spec fn view(&self) -> SearchResultView {
        SearchResultView {
            claims: value::views(self.claims@),
            query_entities: value::views(self.query_entities@),
            fts_used: self.fts_used@,
            expanded: self.expanded@,
        }
    }
}

pub open spec fn contradiction_json(c: ContradictionView) -> JsonView {
    JsonView::Object(json::fields3(json::fv("digest"@, JsonView::Text(c.digest)), json::fv("text"@, JsonView::Text(c.text)), json::fv("supersedes"@, JsonView::Bool(c.supersedes))))
}

pub open spec fn numbers_json(s: Seq<u64>) -> JsonView {
    JsonView::List(s.map_values(|n: u64| JsonView::Unsigned(n)))
}

pub open spec fn found_json(c: FoundClaimView) -> JsonView {
    JsonView::Object(
        json::fields7(
            json::fv("digest"@, JsonView::Text(c.digest)),
            json::fv("text"@, JsonView::Text(c.text)),
            json::fv("kind"@, JsonView::Text(c.kind)),
            json::fv("sensitivity"@, JsonView::Text(c.sensitivity)),
            json::fv("status"@, c.status),
            json::fv("score"@, c.score),
            json::fv(
                "contradictions"@,
                JsonView::List(
                    c.contradictions.map_values(|x: ContradictionView| contradiction_json(x)),
                ),
            ),
        ).push(json::fv("source_events"@, numbers_json(c.source_events))),
    )
}

pub open spec fn entity_json(e: FoundEntityView) -> JsonView {
    JsonView::Object(json::fields2(json::fv("key"@, JsonView::Text(e.key)), json::fv("kind"@, JsonView::Text(e.kind))))
}

/// What a search returns to its caller.
pub open spec fn query_result(r: SearchResultView) -> JsonView {
    JsonView::Object(
        json::fields4(
            json::fv(
                "claims"@,
                JsonView::List(r.claims.map_values(|c: FoundClaimView| found_json(c))),
            ),
            json::fv(
                "query_entities"@,
                JsonView::List(r.query_entities.map_values(|e: FoundEntityView| entity_json(e))),
            ),
            json::fv("fts_used"@, r.fts_used),
            json::fv("expanded"@, r.expanded),
        ),
    )
}

fn contradictions_json(all: &Vec<Contradiction>) -> (r: Json)
    ensures
        r@ == JsonView::List(
            value::views(all@).map_values(|x: ContradictionView| contradiction_json(x)),
        ),
{
    let ghost docs = value::views(all@).map_values(|x: ContradictionView| contradiction_json(x));
    let mut out: Vec<Json> = Vec::new();
    let mut i: usize = 0;
    assert(value::views(out@) =~= docs.take(0));
    while i < all.len()
        invariant
            i <= all.len(),
            docs == value::views(all@).map_values(|x: ContradictionView| contradiction_json(x)),
            value::views(out@) == docs.take(i as int),
        decreases all.len() - i,
    {
        let x = &all[i];
        let f = json::field(json::no_fields(), "digest", json::text_json(x.digest.text.as_str()));
        let f = json::field(f, "text", json::text_json(x.text.as_str()));
        let f = json::field(f, "supersedes", Json::Bool(x.supersedes));
        let doc = json::record(f);
        assert(doc@ == contradiction_json(x@));
        out.push(doc);
        assert(docs.take(i + 1) =~= docs.take(i as int).push(docs[i as int]));
        i = i + 1;
    }
    assert(docs.take(i as int) =~= docs);
    json::list(out)
}

fn numbers_list(all: &Vec<u64>) -> (r: Json)
    ensures
        r@ == numbers_json(all@),
{
    let ghost docs = all@.map_values(|n: u64| JsonView::Unsigned(n));
    let mut out: Vec<Json> = Vec::new();
    let mut i: usize = 0;
    assert(value::views(out@) =~= docs.take(0));
    while i < all.len()
        invariant
            i <= all.len(),
            docs == all@.map_values(|n: u64| JsonView::Unsigned(n)),
            value::views(out@) == docs.take(i as int),
        decreases all.len() - i,
    {
        let doc = Json::Unsigned(all[i]);
        out.push(doc);
        assert(docs.take(i + 1) =~= docs.take(i as int).push(docs[i as int]));
        i = i + 1;
    }
    assert(docs.take(i as int) =~= docs);
    json::list(out)
}

fn found_claims_json(all: &Vec<FoundClaim>) -> (r: Json)
    ensures
        r@ == JsonView::List(
            value::views(all@).map_values(|x: FoundClaimView| found_json(x)),
        ),
{
    let ghost docs = value::views(all@).map_values(|x: FoundClaimView| found_json(x));
    let mut out: Vec<Json> = Vec::new();
    let mut i: usize = 0;
    assert(value::views(out@) =~= docs.take(0));
    while i < all.len()
        invariant
            i <= all.len(),
            docs == value::views(all@).map_values(|x: FoundClaimView| found_json(x)),
            value::views(out@) == docs.take(i as int),
        decreases all.len() - i,
    {
        let x = &all[i];
        let f = json::field(json::no_fields(), "digest", json::text_json(x.digest.text.as_str()));
        let f = json::field(f, "text", json::text_json(x.text.as_str()));
        let f = json::field(f, "kind", json::text_json(x.kind.as_str()));
        let f = json::field(f, "sensitivity", json::text_json(x.sensitivity.as_str()));
        let f = json::field(f, "status", x.status.copy());
        let f = json::field(f, "score", x.score.copy());
        let f = json::field(f, "contradictions", contradictions_json(&x.contradictions));
        let f = json::field(f, "source_events", numbers_list(&x.source_events));
        let doc = json::record(f);
        assert(doc@ == found_json(x@));
        out.push(doc);
        assert(docs.take(i + 1) =~= docs.take(i as int).push(docs[i as int]));
        i = i + 1;
    }
    assert(docs.take(i as int) =~= docs);
    json::list(out)
}

fn entities_json(all: &Vec<FoundEntity>) -> (r: Json)
    ensures
        r@ == JsonView::List(
            value::views(all@).map_values(|x: FoundEntityView| entity_json(x)),
        ),
{
    let ghost docs = value::views(all@).map_values(|x: FoundEntityView| entity_json(x));
    let mut out: Vec<Json> = Vec::new();
    let mut i: usize = 0;
    assert(value::views(out@) =~= docs.take(0));
    while i < all.len()
        invariant
            i <= all.len(),
            docs == value::views(all@).map_values(|x: FoundEntityView| entity_json(x)),
            value::views(out@) == docs.take(i as int),
        decreases all.len() - i,
    {
        let x = &all[i];
        let f = json::field(json::no_fields(), "key", json::text_json(x.key.as_str()));
        let f = json::field(f, "kind", json::text_json(x.kind.as_str()));
        let doc = json::record(f);
        assert(doc@ == entity_json(x@));
        out.push(doc);
        assert(docs.take(i + 1) =~= docs.take(i as int).push(docs[i as int]));
        i = i + 1;
    }
    assert(docs.take(i as int) =~= docs);
    json::list(out)
}

/// The result of a search, and the claims that it activates: they are pinned
/// for what the run sees next.
pub fn memory_query_result(found: &SearchResult) -> (r: (Json, Vec<Digest>))
    ensures
        r.0@ == query_result(found@),
        value::views(r.1@) == found@.claims.map_values(|c: FoundClaimView| c.digest),
{
    let f = json::field(json::no_fields(), "claims", found_claims_json(&found.claims));
    let f = json::field(f, "query_entities", entities_json(&found.query_entities));
    let f = json::field(f, "fts_used", found.fts_used.copy());
    let f = json::field(f, "expanded", found.expanded.copy());
    let ghost all = found@.claims.map_values(|c: FoundClaimView| c.digest);
    let mut pins: Vec<Digest> = Vec::new();
    let mut i: usize = 0;
    assert(value::views(pins@) =~= all.take(0));
    while i < found.claims.len()
        invariant
            i <= found.claims.len(),
            all == found@.claims.map_values(|c: FoundClaimView| c.digest),
            value::views(pins@) == all.take(i as int),
        decreases found.claims.len() - i,
    {
        pins.push(found.claims[i].digest.copy());
        assert(all.take(i + 1) =~= all.take(i as int).push(all[i as int]));
        i = i + 1;
    }
    assert(all.take(i as int) =~= all);
    (json::record(f), pins)
}

// ---------- memory.propose ----------

/// What a claim proposal says.
#[derive(Debug, Clone, PartialEq, Eq)]
pub struct Proposal {
    pub kind: String,
    pub content: String,
    pub sensitivity: String,
    pub supersedes: Option<Id128>,
}

pub struct ProposalView {
    pub kind: Seq<char>,
    pub content: Seq<char>,
    pub sensitivity: Seq<char>,
    pub supersedes: Option<Seq<char>>,
}

impl View for Proposal {
    type V = ProposalView;

    open spec fn view(&self) -> ProposalView {
        ProposalView {
            kind: self.kind@,
            content: self.content@,
            sensitivity: self.sensitivity@,
            supersedes: value::opt_view(self.supersedes),
        }
    }
}

impl Value for Proposal {
    fn copy(&self) -> (r: Self) {
        Proposal {
            kind: self.kind.copy(),
            content: self.content.copy(),
            sensitivity: self.sensitivity.copy(),
            supersedes: value::copy_opt(&self.supersedes),
        }
    }

    fn same(&self, other: &Self) -> (r: bool) {
        self.kind.same(&other.kind)
            && self.content.same(&other.content)
            && self.sensitivity.same(&other.sensitivity)
            && value::same_opt(&self.supersedes, &other.supersedes)
    }
}

/// What a proposal request says, or why it is refused.
pub open spec fn proposal_of(project: bool, args: JsonView, codec: CodecView) -> Result<
    ProposalView,
    Seq<char>,
> {
    if !project {
        Err("no project bound"@)
    } else {
        match json::member(args, "claim"@) {
            None => Err("memory.propose requires a claim object"@),
            Some(claim) => match json::text_member(claim, "kind"@) {
                None => Err("claim.kind is required"@),
                Some(kind) => match json::text_member(claim, "content"@) {
                    None => Err("claim.content is required"@),
                    Some(content) => Ok(
                        ProposalView {
                            kind,
                            content,
                            sensitivity: match json::text_member(claim, "sensitivity"@) {
                                Some(s) => s,
                                None => "internal"@,
                            },
                            supersedes: event::id_member(codec, claim, "supersedes"@),
                        },
                    ),
                },
            },
        }
    }
}

/// Reads a proposal request; the error text where it is refused.
pub fn read_proposal(project: bool, args: &Json, codec: &Codec) -> (r: Result<Proposal, String>)
    ensures
        match r {
            Ok(p) => proposal_of(project, args@, codec@) == Ok::<ProposalView, Seq<char>>(p@),
            Err(e) => proposal_of(project, args@, codec@) == Err::<ProposalView, Seq<char>>(e@),
        },
{
    if !project {
        return Err("no project bound".to_owned());
    }
    let claim = match args.get("claim") {
        Some(c) => c,
        None => return Err("memory.propose requires a claim object".to_owned()),
    };
    let kind = match claim.get_text("kind") {
        Some(k) => k.clone(),
        None => return Err("claim.kind is required".to_owned()),
    };
    let content = match claim.get_text("content") {
        Some(c) => c.clone(),
        None => return Err("claim.content is required".to_owned()),
    };
    let sensitivity = match claim.get_text("sensitivity") {
        Some(s) => s.clone(),
        None => "internal".to_owned(),
    };
    let supersedes = codec.id_in(claim, "supersedes");
    Ok(Proposal { kind, content, sensitivity, supersedes })
}

/// Where a proposal stands: what the host is to do next.
#[derive(Debug, Clone, PartialEq, Eq)]
pub enum ProposePhase {
    /// Commit the proposal.
    Commit,
    /// Read the fold of the project for the claim that is superseded.
    LookUp { target: Id128 },
    /// Install the edge from the superseded claim to the new one.
    InstallEdge { target: Id128, target_digest: Digest },
    /// Run the transition of the claim.
    Claim(TransitionRequest),
    /// Run the transition of the edge.
    Edge(TransitionRequest),
    Done(ToolOutcome),
}

pub enum ProposePhaseView {
    Commit,
    LookUp { target: Seq<char> },
    InstallEdge { target: Seq<char>, target_digest: Seq<char> },
    Claim(TransitionRequestView),
    Edge(TransitionRequestView),
    Done(ToolOutcomeView),
}

impl View for ProposePhase {
    type V = ProposePhaseView;

    open spec fn view(&self) -> ProposePhaseView {
        match *self {
            ProposePhase::Commit => ProposePhaseView::Commit,
            ProposePhase::LookUp { target } => ProposePhaseView::LookUp { target: target@ },
            ProposePhase::InstallEdge { target, target_digest } => ProposePhaseView::InstallEdge { target: target@, target_digest: target_digest@ },
            ProposePhase::Claim(x) => ProposePhaseView::Claim(x@),
            ProposePhase::Edge(x) => ProposePhaseView::Edge(x@),
            ProposePhase::Done(x) => ProposePhaseView::Done(x@),
        }
    }
}

/// A proposal whose claim object is installed.
pub struct ProposeFlow {
    intent: ToolIntent,
    proposal: Proposal,
    claim_id: Id128,
    claim_digest: Digest,
    project: Id128,
    scope_document: Json,
    owner: Json,
    edge: Option<SupersedeEdge>,
    status: String,
    transition: Option<Id128>,
    phase: ProposePhase,
}

pub struct ProposeFlowView {
    pub intent: ToolIntentView,
    pub proposal: ProposalView,
    pub claim_id: Seq<char>,
    pub claim_digest: Seq<char>,
    pub project: Seq<char>,
    pub scope_document: JsonView,
    pub owner: JsonView,
    pub edge: Option<SupersedeEdgeView>,
    pub status: Seq<char>,
    pub transition: Option<Seq<char>>,
    pub phase: ProposePhaseView,
}

impl View for ProposeFlow {
    type V = ProposeFlowView;

    closed spec fn view(&self) -> ProposeFlowView {
        ProposeFlowView {
            intent: self.intent@,
            proposal: self.proposal@,
            claim_id: self.claim_id@,
            claim_digest: self.claim_digest@,
            project: self.project@,
            scope_document: self.scope_document@,
            owner: self.owner@,
            edge: value::opt_view(self.edge),
            status: self.status@,
            transition: value::opt_view(self.transition),
            phase: self.phase@,
        }
    }
}

/// An installed edge that supersedes a claim.
#[derive(Debug, Clone, PartialEq, Eq)]
pub struct SupersedeEdge {
    pub edge: Digest,
    pub target: Digest,
}

pub struct SupersedeEdgeView {
    pub edge: Seq<char>,
    pub target: Seq<char>,
}

impl View for SupersedeEdge {
    type V = SupersedeEdgeView;

    open spec fn view(&self) -> SupersedeEdgeView {
        SupersedeEdgeView {
            edge: self.edge@,
            target: self.target@,
        }
    }
}

impl Value for SupersedeEdge {
    fn copy(&self) -> (r: Self) {
        SupersedeEdge {
            edge: self.edge.copy(),
            target: self.target.copy(),
        }
    }

    fn same(&self, other: &Self) -> (r: bool) {
        self.edge.same(&other.edge)
            && self.target.same(&other.target)
    }
}

/// The record of a proposal.
pub open spec fn proposal_record(p: ProposeFlowView) -> EventView {
    event::document(
        "memory_proposal"@,
        JsonView::Object(json::fields7(json::fv("claim_digest"@, JsonView::Text(p.claim_digest)), json::fv("claim_id"@, JsonView::Text(p.claim_id)), json::fv("kind"@, JsonView::Text(p.proposal.kind)), json::fv("content"@, JsonView::Text(p.proposal.content)), json::fv("sensitivity"@, JsonView::Text(p.proposal.sensitivity)), json::fv("owner"@, p.owner), json::fv("intent_event"@, json::number_or_null(p.intent.intent_event)))),
    )
}

/// The transition of the claim itself.
pub open spec fn claim_request(
    p: ProposeFlowView,
    approval: Seq<char>,
    head: Option<Seq<char>>,
) -> TransitionRequestView {
    TransitionRequestView {
        scope: MemoryScopeView::Project(p.project),
        scope_document: p.scope_document,
        kind: TransitionKind::RootApproval,
        origin_kind: "memory_root_approved"@,
        origin_payload: JsonView::Object(json::fields3(json::fv("claim_digest"@, JsonView::Text(p.claim_digest)), json::fv("decision_digest"@, JsonView::Text(approval)), json::fv("expected_root"@, json::text_or_null(head)))),
        decision_digest: approval,
        added_claims: Seq::empty().push(p.claim_digest),
        added_edges: Seq::empty(),
        retracted: Seq::empty(),
        deferred_claim: p.claim_digest,
        expected_root: head,
    }
}

/// The transition of the edge that retracts the superseded claim.
pub open spec fn edge_request(
    p: ProposeFlowView,
    edge: SupersedeEdgeView,
    approval: Seq<char>,
    head: Option<Seq<char>>,
) -> TransitionRequestView {
    TransitionRequestView {
        scope: MemoryScopeView::Project(p.project),
        scope_document: p.scope_document,
        kind: TransitionKind::RootApproval,
        origin_kind: "memory_root_approved"@,
        origin_payload: JsonView::Object(json::fields4(json::fv("claim_digest"@, JsonView::Text(p.claim_digest)), json::fv("edge_digest"@, JsonView::Text(edge.edge)), json::fv("decision_digest"@, JsonView::Text(approval)), json::fv("expected_root"@, json::text_or_null(head)))),
        decision_digest: approval,
        added_claims: Seq::empty(),
        added_edges: Seq::empty().push(edge.edge),
        retracted: Seq::empty().push(edge.target),
        deferred_claim: p.claim_digest,
        expected_root: head,
    }
}

/// What a proposal without an approval returns.
pub open spec fn proposed_result(p: ProposeFlowView) -> JsonView {
    JsonView::Object(json::fields3(json::fv("claim_id"@, JsonView::Text(p.claim_id)), json::fv("claim_digest"@, JsonView::Text(p.claim_digest)), json::fv("status"@, JsonView::Text("proposed"@))))
}

/// What a proposal with an approval returns.
pub open spec fn decided_result(p: ProposeFlowView) -> JsonView {
    JsonView::Object(json::fields4(json::fv("claim_id"@, JsonView::Text(p.claim_id)), json::fv("claim_digest"@, JsonView::Text(p.claim_digest)), json::fv("status"@, JsonView::Text(p.status)), json::fv("transition_id"@, json::text_or_null(p.transition))))
}

/// On to the transition, if there is an approval; else the claim is left
/// proposed.
pub open spec fn approving(
    p: ProposeFlowView,
    head: Option<Seq<char>>,
    now: Option<Seq<char>>,
) -> ProposeFlowView {
    ProposeFlowView {
        phase: match p.intent.approval {
            Some(approval) => ProposePhaseView::Claim(claim_request(p, approval, head)),
            None => ProposePhaseView::Done(tools::finished(p.intent, now, proposed_result(p))),
        },
        ..p
    }
}

pub open spec fn after_proposal_commit(
    p: ProposeFlowView,
    head: Option<Seq<char>>,
    now: Option<Seq<char>>,
) -> ProposeFlowView {
    match p.proposal.supersedes {
        Some(target) => ProposeFlowView { phase: ProposePhaseView::LookUp { target }, ..p },
        None => approving(p, head, now),
    }
}

/// The superseded claim must be active in the project.
pub open spec fn after_lookup(
    p: ProposeFlowView,
    fold: RootFoldView,
    now: Option<Seq<char>>,
) -> ProposeFlowView {
    match p.phase {
        ProposePhaseView::LookUp { target } => ProposeFlowView {
            phase: match memory::active(fold, target) {
                Some(target_digest) => ProposePhaseView::InstallEdge { target, target_digest },
                None => ProposePhaseView::Done(
                    tools::failed(p.intent, now, "supersedes target not found"@),
                ),
            },
            ..p
        },
        _ => p,
    }
}

pub open spec fn after_edge_install(
    p: ProposeFlowView,
    edge: Seq<char>,
    head: Option<Seq<char>>,
    now: Option<Seq<char>>,
) -> ProposeFlowView {
    match p.phase {
        ProposePhaseView::InstallEdge { target_digest, .. } => approving(
            ProposeFlowView {
                edge: Some(SupersedeEdgeView { edge, target: target_digest }),
                ..p
            },
            head,
            now,
        ),
        _ => p,
    }
}

/// The edge follows only after the claim was approved.
pub open spec fn after_claim(
    p: ProposeFlowView,
    status: Seq<char>,
    transition: Option<Seq<char>>,
    head: Option<Seq<char>>,
    now: Option<Seq<char>>,
) -> ProposeFlowView {
    let q = ProposeFlowView { status, transition, ..p };
    match (q.edge, q.intent.approval) {
        (Some(edge), Some(approval)) => if status == "approved"@ {
            ProposeFlowView {
                phase: ProposePhaseView::Edge(edge_request(q, edge, approval, head)),
                ..q
            }
        } else {
            ProposeFlowView {
                phase: ProposePhaseView::Done(tools::finished(q.intent, now, decided_result(q))),
                ..q
            }
        },
        _ => ProposeFlowView {
            phase: ProposePhaseView::Done(tools::finished(q.intent, now, decided_result(q))),
            ..q
        },
    }
}

pub open spec fn after_edge(
    p: ProposeFlowView,
    status: Seq<char>,
    transition: Option<Seq<char>>,
    now: Option<Seq<char>>,
) -> ProposeFlowView {
    let q = ProposeFlowView {
        status,
        transition: if transition is Some {
            transition
        } else {
            p.transition
        },
        ..p
    };
    ProposeFlowView {
        phase: ProposePhaseView::Done(tools::finished(q.intent, now, decided_result(q))),
        ..q
    }
}

/// The document of an approved root.
fn approval_payload(
    claim: &Digest,
    edge: Option<&Digest>,
    approval: &Digest,
    head: &Option<Digest>,
) -> (r: Json)
    ensures
        r@ == match edge {
            None => JsonView::Object(json::fields3(json::fv("claim_digest"@, JsonView::Text(claim@)), json::fv("decision_digest"@, JsonView::Text(approval@)), json::fv("expected_root"@, json::text_or_null(value::opt_view(*head))))),
            Some(e) => JsonView::Object(json::fields4(json::fv("claim_digest"@, JsonView::Text(claim@)), json::fv("edge_digest"@, JsonView::Text(e@)), json::fv("decision_digest"@, JsonView::Text(approval@)), json::fv("expected_root"@, json::text_or_null(value::opt_view(*head))))),
        },
{
    let mut f = json::field(json::no_fields(), "claim_digest", json::text_json(claim.text.as_str()));
    if let Some(e) = edge {
        f = json::field(f, "edge_digest", json::text_json(e.text.as_str()));
    }
    let f = json::field(f, "decision_digest", json::text_json(approval.text.as_str()));
    let f = json::field(f, "expected_root", json::digest_or_null(head));
    json::record(f)
}

impl ProposeFlow {
    /// Takes up a proposal whose claim object was installed.
    pub fn start(
        intent: ToolIntent,
        proposal: Proposal,
        claim_id: Id128,
        claim_digest: Digest,
        project: Id128,
        scope_document: Json,
        owner: Json,
    ) -> (r: ProposeFlow)
        ensures
            r@ == (ProposeFlowView {
                intent: intent@,
                proposal: proposal@,
                claim_id: claim_id@,
                claim_digest: claim_digest@,
                project: project@,
                scope_document: scope_document@,
                owner: owner@,
                edge: None,
                status: Seq::empty(),
                transition: None,
                phase: ProposePhaseView::Commit,
            }),
    {
        ProposeFlow {
            intent,
            proposal,
            claim_id,
            claim_digest,
            project,
            scope_document,
            owner,
            edge: None,
            status: String::new(),
            transition: None,
            phase: ProposePhase::Commit,
        }
    }

    /// What the host is to do next.
    pub fn phase(&self) -> (r: &ProposePhase)
        ensures
            r@ == self@.phase,
    {
        &self.phase
    }

    /// The event of the proposal.
    pub fn proposal_event(&self) -> (r: Event)
        ensures
            r@ == proposal_record(self@),
    {
        let f = json::field(json::no_fields(), "claim_digest", json::text_json(self.claim_digest.text.as_str()));
        let f = json::field(f, "claim_id", json::text_json(self.claim_id.text.as_str()));
        let f = json::field(f, "kind", json::text_json(self.proposal.kind.as_str()));
        let f = json::field(f, "content", json::text_json(self.proposal.content.as_str()));
        let f = json::field(f, "sensitivity", json::text_json(self.proposal.sensitivity.as_str()));
        let f = json::field(f, "owner", self.owner.copy());
        let f = json::field(f, "intent_event", json::unsigned_or_null(self.intent.intent_event));
        event::document_event("memory_proposal", json::record(f))
    }

    fn approve(&mut self, head: &Option<Digest>, now: &Option<Digest>)
        ensures
            final(self)@ == approving(old(self)@, value::opt_view(*head), value::opt_view(*now)),
    {
        match value::copy_opt(&self.intent.approval) {
            Some(approval) => {
                let mut added: Vec<Digest> = Vec::new();
                added.push(self.claim_digest.copy());
                self.phase = ProposePhase::Claim(
                    TransitionRequest {
                        scope: MemoryScope::Project(self.project.copy()),
                        scope_document: self.scope_document.copy(),
                        kind: TransitionKind::RootApproval,
                        origin_kind: "memory_root_approved".to_owned(),
                        origin_payload: approval_payload(
                            &self.claim_digest,
                            None,
                            &approval,
                            head,
                        ),
                        decision_digest: approval,
                        added_claims: added,
                        added_edges: Vec::new(),
                        retracted: Vec::new(),
                        deferred_claim: self.claim_digest.copy(),
                        expected_root: value::copy_opt(head),
                    },
                );
            },
            None => {
                let f = json::field(json::no_fields(), "claim_id", json::text_json(self.claim_id.text.as_str()));
                let f = json::field(f, "claim_digest", json::text_json(self.claim_digest.text.as_str()));
                let f = json::field(f, "status", json::text_json("proposed"));
                let outcome = tools::outcome_finished(&self.intent, now, json::record(f));
                self.phase = ProposePhase::Done(outcome);
            },
        }
    }

    fn finish(&mut self, now: &Option<Digest>)
        ensures
            final(self)@ == (ProposeFlowView {
                phase: ProposePhaseView::Done(
                    tools::finished(
                        old(self)@.intent,
                        value::opt_view(*now),
                        decided_result(old(self)@),
                    ),
                ),
                ..old(self)@
            }),
    {
        let f = json::field(json::no_fields(), "claim_id", json::text_json(self.claim_id.text.as_str()));
        let f = json::field(f, "claim_digest", json::text_json(self.claim_digest.text.as_str()));
        let f = json::field(f, "status", json::text_json(self.status.as_str()));
        let f = json::field(f, "transition_id", json::id_or_null(&self.transition));
        let outcome = tools::outcome_finished(&self.intent, now, json::record(f));
        self.phase = ProposePhase::Done(outcome);
    }

    /// The proposal was committed. `head` is the project's root.
    pub fn proposal_committed(&mut self, head: &Option<Digest>, now: &Option<Digest>)
        requires
            old(self)@.phase is Commit,
        ensures
            final(self)@ == after_proposal_commit(
                old(self)@,
                value::opt_view(*head),
                value::opt_view(*now),
            ),
    {
        match value::copy_opt(&self.proposal.supersedes) {
            Some(target) => self.phase = ProposePhase::LookUp { target },
            None => self.approve(head, now),
        }
    }

    /// The project's fold was read.
    pub fn target_looked_up(&mut self, fold: &RootFold, now: &Option<Digest>)
        requires
            old(self)@.phase is LookUp,
        ensures
            final(self)@ == after_lookup(old(self)@, fold@, value::opt_view(*now)),
    {
        let target = match &self.phase {
            ProposePhase::LookUp { target } => target.copy(),
            _ => return ,
        };
        match memory::active_claim(fold, &target) {
            Some(target_digest) => {
                self.phase = ProposePhase::InstallEdge { target, target_digest };
            },
            None => {
                let outcome = tools::outcome_failed(
                    &self.intent,
                    now,
                    "supersedes target not found".to_owned(),
                );
                self.phase = ProposePhase::Done(outcome);
            },
        }
    }

    /// The edge was installed. `head` is the project's root.
    pub fn edge_installed(&mut self, edge: Digest, head: &Option<Digest>, now: &Option<Digest>)
        requires
            old(self)@.phase is InstallEdge,
        ensures
            final(self)@ == after_edge_install(
                old(self)@,
                edge@,
                value::opt_view(*head),
                value::opt_view(*now),
            ),
    {
        let target = match &self.phase {
            ProposePhase::InstallEdge { target_digest, .. } => target_digest.copy(),
            _ => return ,
        };
        self.edge = Some(SupersedeEdge { edge, target });
        self.approve(head, now);
    }

    /// The transition of the claim ended. `head` is the project's root then.
    pub fn claim_decided(
        &mut self,
        status: String,
        transition: Option<Id128>,
        head: &Option<Digest>,
        now: &Option<Digest>,
    )
        requires
            old(self)@.phase is Claim,
        ensures
            final(self)@ == after_claim(
                old(self)@,
                status@,
                value::opt_view(transition),
                value::opt_view(*head),
                value::opt_view(*now),
            ),
    {
        let approved = text::same_text(status.as_str(), "approved");
        self.status = status;
        self.transition = transition;
        match (value::copy_opt(&self.edge), value::copy_opt(&self.intent.approval)) {
            (Some(edge), Some(approval)) => {
                if approved {
                    let mut added: Vec<Digest> = Vec::new();
                    added.push(edge.edge.copy());
                    let mut retracted: Vec<Digest> = Vec::new();
                    retracted.push(edge.target.copy());
                    self.phase = ProposePhase::Edge(
                        TransitionRequest {
                            scope: MemoryScope::Project(self.project.copy()),
                            scope_document: self.scope_document.copy(),
                            kind: TransitionKind::RootApproval,
                            origin_kind: "memory_root_approved".to_owned(),
                            origin_payload: approval_payload(
                                &self.claim_digest,
                                Some(&edge.edge),
                                &approval,
                                head,
                            ),
                            decision_digest: approval,
                            added_claims: Vec::new(),
                            added_edges: added,
                            retracted,
                            deferred_claim: self.claim_digest.copy(),
                            expected_root: value::copy_opt(head),
                        },
                    );
                } else {
                    self.finish(now);
                }
            },
            _ => self.finish(now),
        }
    }

    /// The transition of the edge ended.
    pub fn edge_decided(
        &mut self,
        status: String,
        transition: Option<Id128>,
        now: &Option<Digest>,
    )
        requires
            old(self)@.phase is Edge,
        ensures
            final(self)@ == after_edge(
                old(self)@,
                status@,
                value::opt_view(transition),
                value::opt_view(*now),
            ),
    {
        self.status = status;
        if let Some(t) = transition {
            self.transition = Some(t);
        }
        self.finish(now);
    }
}

// ---------- memory.review ----------

/// What a review asks for.
#[derive(Debug, Clone, PartialEq, Eq)]
pub struct ReviewRequest {
    pub claim_id: Id128,
    pub decision: String,
    pub reason: String,
}

pub struct ReviewRequestView {
    pub claim_id: Seq<char>,
    pub decision: Seq<char>,
    pub reason: Seq<char>,
}

impl View for ReviewRequest {
    type V = ReviewRequestView;

    open spec fn view(&self) -> ReviewRequestView {
        ReviewRequestView {
            claim_id: self.claim_id@,
            decision: self.decision@,
            reason: self.reason@,
        }
    }
}

pub open spec fn review_of(project: bool, args: JsonView, codec: CodecView) -> Result<
    ReviewRequestView,
    Seq<char>,
> {
    if !project {
        Err("no project bound"@)
    } else {
        match event::id_member(codec, args, "claim_id"@) {
            None => Err("memory.review requires a claim_id"@),
            Some(claim_id) => match json::text_member(args, "decision"@) {
                None => Err("memory.review requires a decision"@),
                Some(decision) => Ok(
                    ReviewRequestView {
                        claim_id,
                        decision,
                        reason: match json::text_member(args, "reason"@) {
                            Some(r) => r,
                            None => ""@,
                        },
                    },
                ),
            },
        }
    }
}

/// Reads a review request; the error text where it is refused.
pub fn read_review(project: bool, args: &Json, codec: &Codec) -> (r: Result<ReviewRequest, String>)
    ensures
        match r {
            Ok(p) => review_of(project, args@, codec@) == Ok::<ReviewRequestView, Seq<char>>(p@),
            Err(e) => review_of(project, args@, codec@) == Err::<ReviewRequestView, Seq<char>>(e@),
        },
{
    if !project {
        return Err("no project bound".to_owned());
    }
    let claim_id = match codec.id_in(args, "claim_id") {
        Some(id) => id,
        None => return Err("memory.review requires a claim_id".to_owned()),
    };
    let decision = match args.get_text("decision") {
        Some(d) => d.clone(),
        None => return Err("memory.review requires a decision".to_owned()),
    };
    let reason = match args.get_text("reason") {
        Some(t) => t.clone(),
        None => "".to_owned(),
    };
    Ok(ReviewRequest { claim_id, decision, reason })
}

/// What a review comes to.
#[derive(Debug, Clone, PartialEq, Eq)]
pub enum ReviewPlan {
    Refuse(String),
    /// Run the transition of the claim.
    Approve { digest: Digest, approval: Digest },
    /// Commit the decision; the claims are not touched.
    Record { kind: String, digest: Digest },
}

pub enum ReviewPlanView {
    Refuse(Seq<char>),
    Approve { digest: Seq<char>, approval: Seq<char> },
    Record { kind: Seq<char>, digest: Seq<char> },
}

impl View for ReviewPlan {
    type V = ReviewPlanView;

    open spec fn view(&self) -> ReviewPlanView {
        match *self {
            ReviewPlan::Refuse(x) => ReviewPlanView::Refuse(x@),
            ReviewPlan::Approve { digest, approval } => ReviewPlanView::Approve { digest: digest@, approval: approval@ },
            ReviewPlan::Record { kind, digest } => ReviewPlanView::Record { kind: kind@, digest: digest@ },
        }
    }
}

/// The decision on a claim: `active` is its digest in the project's fold,
/// `found` that of its last proposal.
pub open spec fn review_plan(
    request: ReviewRequestView,
    active: Option<Seq<char>>,
    found: Option<Seq<char>>,
    approval: Option<Seq<char>>,
) -> ReviewPlanView {
    if request.decision == "approve"@ {
        if active is Some {
            ReviewPlanView::Refuse("claim is already active"@)
        } else if found is None {
            ReviewPlanView::Refuse("no matching memory proposal"@)
        } else if approval is None {
            ReviewPlanView::Refuse("approve requires user approval"@)
        } else {
            ReviewPlanView::Approve { digest: found->0, approval: approval->0 }
        }
    } else if request.decision == "reject"@ || request.decision == "request_evidence"@ {
        let digest = if active is Some {
            active
        } else {
            found
        };
        if digest is None {
            ReviewPlanView::Refuse("no matching memory proposal"@)
        } else {
            ReviewPlanView::Record {
                kind: if request.decision == "reject"@ {
                    "memory_proposal_rejected"@
                } else {
                    "memory_evidence_requested"@
                },
                digest: digest->0,
            }
        }
    } else {
        ReviewPlanView::Refuse(
            "unknown memory.review decision "@ + text::debug_text(request.decision),
        )
    }
}

/// Decides a review.
pub fn plan_review(
    request: &ReviewRequest,
    active: &Option<Digest>,
    found: &Option<Digest>,
    approval: &Option<Digest>,
) -> (r: ReviewPlan)
    ensures
        r@ == review_plan(
            request@,
            value::opt_view(*active),
            value::opt_view(*found),
            value::opt_view(*approval),
        ),
{
    proof {
        reveal_strlit("approve");
        reveal_strlit("reject");
        reveal_strlit("request_evidence");
    }
    let decision = request.decision.as_str();
    if text::same_text(decision, "approve") {
        if active.is_some() {
            return ReviewPlan::Refuse("claim is already active".to_owned());
        }
        match found {
            None => ReviewPlan::Refuse("no matching memory proposal".to_owned()),
            Some(digest) => match approval {
                None => ReviewPlan::Refuse("approve requires user approval".to_owned()),
                Some(a) => ReviewPlan::Approve { digest: digest.copy(), approval: a.copy() },
            },
        }
    } else if text::same_text(decision, "reject") || text::same_text(decision, "request_evidence") {
        let digest = match active {
            Some(d) => d.copy(),
            None => match found {
                Some(d) => d.copy(),
                None => return ReviewPlan::Refuse("no matching memory proposal".to_owned()),
            },
        };
        let kind = if text::same_text(decision, "reject") {
            "memory_proposal_rejected".to_owned()
        } else {
            "memory_evidence_requested".to_owned()
        };
        ReviewPlan::Record { kind, digest }
    } else {
        ReviewPlan::Refuse(
            text::cat2(
                "unknown memory.review decision ",
                text::debug(decision).as_str(),
            ),
        )
    }
}

/// The record of a decision that leaves the claims alone.
pub open spec fn review_record(
    request: ReviewRequestView,
    kind: Seq<char>,
    digest: Seq<char>,
    principal: JsonView,
) -> EventView {
    event::document(
        kind,
        JsonView::Object(json::fields4(json::fv("claim_id"@, JsonView::Text(request.claim_id)), json::fv("claim_digest"@, JsonView::Text(digest)), json::fv("reason"@, JsonView::Text(request.reason)), json::fv("decision_principal"@, principal))),
    )
}

/// The event of a decision that leaves the claims alone.
pub fn review_event(request: &ReviewRequest, kind: &str, digest: &Digest, principal: &Json) -> (r:
    Event)
    ensures
        r@ == review_record(request@, kind@, digest@, principal@),
{
    let f = json::field(json::no_fields(), "claim_id", json::text_json(request.claim_id.text.as_str()));
    let f = json::field(f, "claim_digest", json::text_json(digest.text.as_str()));
    let f = json::field(f, "reason", json::text_json(request.reason.as_str()));
    let f = json::field(f, "decision_principal", principal.copy());
    event::document_event(kind, json::record(f))
}

/// What a recorded decision returns.
pub open spec fn recorded_result(request: ReviewRequestView, digest: Seq<char>) -> JsonView {
    JsonView::Object(json::fields4(json::fv("claim_id"@, JsonView::Text(request.claim_id)), json::fv("claim_digest"@, JsonView::Text(digest)), json::fv("decision"@, JsonView::Text(request.decision)), json::fv("status"@, JsonView::Text(request.decision))))
}

pub fn review_recorded(request: &ReviewRequest, digest: &Digest) -> (r: Json)
    ensures
        r@ == recorded_result(request@, digest@),
{
    let f = json::field(json::no_fields(), "claim_id", json::text_json(request.claim_id.text.as_str()));
    let f = json::field(f, "claim_digest", json::text_json(digest.text.as_str()));
    let f = json::field(f, "decision", json::text_json(request.decision.as_str()));
    let f = json::field(f, "status", json::text_json(request.decision.as_str()));
    json::record(f)
}

/// The transition of a claim that a review approves.
pub open spec fn review_request(
    project: Seq<char>,
    scope_document: JsonView,
    digest: Seq<char>,
    approval: Seq<char>,
    head: Option<Seq<char>>,
) -> TransitionRequestView {
    TransitionRequestView {
        scope: MemoryScopeView::Project(project),
        scope_document,
        kind: TransitionKind::RootApproval,
        origin_kind: "memory_root_approved"@,
        origin_payload: JsonView::Object(json::fields3(json::fv("claim_digest"@, JsonView::Text(digest)), json::fv("decision_digest"@, JsonView::Text(approval)), json::fv("expected_root"@, json::text_or_null(head)))),
        decision_digest: approval,
        added_claims: Seq::empty().push(digest),
        added_edges: Seq::empty(),
        retracted: Seq::empty(),
        deferred_claim: digest,
        expected_root: head,
    }
}

/// The transition of a claim that a review approves.
pub fn review_transition(
    project: &Id128,
    scope_document: &Json,
    digest: &Digest,
    approval: &Digest,
    head: &Option<Digest>,
) -> (r: TransitionRequest)
    ensures
        r@ == review_request(
            project@,
            scope_document@,
            digest@,
            approval@,
            value::opt_view(*head),
        ),
{
    let mut added: Vec<Digest> = Vec::new();
    added.push(digest.copy());
    TransitionRequest {
        scope: MemoryScope::Project(project.copy()),
        scope_document: scope_document.copy(),
        kind: TransitionKind::RootApproval,
        origin_kind: "memory_root_approved".to_owned(),
        origin_payload: approval_payload(digest, None, approval, head),
        decision_digest: approval.copy(),
        added_claims: added,
        added_edges: Vec::new(),
        retracted: Vec::new(),
        deferred_claim: digest.copy(),
        expected_root: value::copy_opt(head),
    }
}

/// What an approved review returns.
pub open spec fn approved_result(
    request: ReviewRequestView,
    digest: Seq<char>,
    status: Seq<char>,
    transition: Option<Seq<char>>,
) -> JsonView {
    JsonView::Object(json::fields5(json::fv("claim_id"@, JsonView::Text(request.claim_id)), json::fv("claim_digest"@, JsonView::Text(digest)), json::fv("decision"@, JsonView::Text(request.decision)), json::fv("status"@, JsonView::Text(status)), json::fv("transition_id"@, json::text_or_null(transition))))
}

pub fn review_approved(
    request: &ReviewRequest,
    digest: &Digest,
    status: &String,
    transition: &Option<Id128>,
) -> (r: Json)
    ensures
        r@ == approved_result(request@, digest@, status@, value::opt_view(*transition)),
{
    let f = json::field(json::no_fields(), "claim_id", json::text_json(request.claim_id.text.as_str()));
    let f = json::field(f, "claim_digest", json::text_json(digest.text.as_str()));
    let f = json::field(f, "decision", json::text_json(request.decision.as_str()));
    let f = json::field(f, "status", json::text_json(status.as_str()));
    let f = json::field(f, "transition_id", json::id_or_null(transition));
    json::record(f)
}

// ---------- memory.promote ----------

/// An active claim to promote to the lifetime scope.
#[derive(Debug, Clone, PartialEq, Eq)]
pub struct Promotion {
    pub source: StoredClaim,
    pub evidence: String,
    pub approval: Digest,
}

pub struct PromotionView {
    pub source: StoredClaimView,
    pub evidence: Seq<char>,
    pub approval: Seq<char>,
}

impl View for Promotion {
    type V = PromotionView;

    open spec fn view(&self) -> PromotionView {
        PromotionView {
            source: self.source@,
            evidence: self.evidence@,
            approval: self.approval@,
        }
    }
}

/// What a promotion comes to: the project's active claim under the user's
/// approval, or why it is refused.
pub open spec fn promotion_of(
    project: bool,
    args: JsonView,
    codec: CodecView,
    fold: RootFoldView,
    approval: Option<Seq<char>>,
) -> Result<PromotionView, Seq<char>> {
    if !project {
        Err("no project bound"@)
    } else {
        match event::id_member(codec, args, "claim_id"@) {
            None => Err("memory.promote requires a claim_id"@),
            Some(id) => match memory::claim_of(fold.claims, id) {
                None => Err("promote source is not an active project claim"@),
                Some(source) => match approval {
                    None => Err("promotion requires user approval"@),
                    Some(approval) => Ok(
                        PromotionView {
                            source,
                            evidence: match json::text_member(args, "evidence"@) {
                                Some(t) => t,
                                None => ""@,
                            },
                            approval,
                        },
                    ),
                },
            },
        }
    }
}

/// Plans a promotion; the error text where it is refused.
pub fn plan_promotion(
    project: bool,
    args: &Json,
    codec: &Codec,
    fold: &RootFold,
    approval: &Option<Digest>,
) -> (r: Result<Promotion, String>)
    ensures
        ({
            let plan = promotion_of(project, args@, codec@, fold@, value::opt_view(*approval));
            match r {
                Ok(p) => plan == Ok::<PromotionView, Seq<char>>(p@),
                Err(e) => plan == Err::<PromotionView, Seq<char>>(e@),
            }
        }),
{
    if !project {
        return Err("no project bound".to_owned());
    }
    let id = match codec.id_in(args, "claim_id") {
        Some(id) => id,
        None => return Err("memory.promote requires a claim_id".to_owned()),
    };
    let source = match memory::find_claim(&fold.claims, &id) {
        Some(c) => c,
        None => return Err("promote source is not an active project claim".to_owned()),
    };
    let approval = match approval {
        Some(a) => a.copy(),
        None => return Err("promotion requires user approval".to_owned()),
    };
    let evidence = match args.get_text("evidence") {
        Some(t) => t.clone(),
        None => "".to_owned(),
    };
    Ok(Promotion { source, evidence, approval })
}

/// The transition of a promotion: the new claim and its edge to the source
/// join the lifetime scope.
pub open spec fn promotion_request(
    p: PromotionView,
    scope_document: JsonView,
    claim: Seq<char>,
    edge: Seq<char>,
    head: Option<Seq<char>>,
) -> TransitionRequestView {
    TransitionRequestView {
        scope: MemoryScopeView::Lifetime,
        scope_document,
        kind: TransitionKind::Promotion,
        origin_kind: "memory_promotion_approved"@,
        origin_payload: JsonView::Object(json::fields6(json::fv("claim_digest"@, JsonView::Text(claim)), json::fv("edge_digest"@, JsonView::Text(edge)), json::fv("source_claim_id"@, JsonView::Text(p.source.claim.claim_id)), json::fv("source_digest"@, JsonView::Text(p.source.digest)), json::fv("decision_digest"@, JsonView::Text(p.approval)), json::fv("expected_root"@, json::text_or_null(head)))),
        decision_digest: p.approval,
        added_claims: Seq::empty().push(claim),
        added_edges: Seq::empty().push(edge),
        retracted: Seq::empty(),
        deferred_claim: claim,
        expected_root: head,
    }
}

pub fn promotion_transition(
    p: &Promotion,
    scope_document: &Json,
    claim: &Digest,
    edge: &Digest,
    head: &Option<Digest>,
) -> (r: TransitionRequest)
    ensures
        r@ == promotion_request(p@, scope_document@, claim@, edge@, value::opt_view(*head)),
{
    let f = json::field(json::no_fields(), "claim_digest", json::text_json(claim.text.as_str()));
    let f = json::field(f, "edge_digest", json::text_json(edge.text.as_str()));
    let f = json::field(f, "source_claim_id", json::text_json(p.source.claim.claim_id.text.as_str()));
    let f = json::field(f, "source_digest", json::text_json(p.source.digest.text.as_str()));
    let f = json::field(f, "decision_digest", json::text_json(p.approval.text.as_str()));
    let f = json::field(f, "expected_root", json::digest_or_null(head));
    let mut claims: Vec<Digest> = Vec::new();
    claims.push(claim.copy());
    let mut edges: Vec<Digest> = Vec::new();
    edges.push(edge.copy());
    TransitionRequest {
        scope: MemoryScope::Lifetime,
        scope_document: scope_document.copy(),
        kind: TransitionKind::Promotion,
        origin_kind: "memory_promotion_approved".to_owned(),
        origin_payload: json::record(f),
        decision_digest: p.approval.copy(),
        added_claims: claims,
        added_edges: edges,
        retracted: Vec::new(),
        deferred_claim: claim.copy(),
        expected_root: value::copy_opt(head),
    }
}

/// What a promotion returns.
pub open spec fn promoted_result(
    p: PromotionView,
    claim_id: Seq<char>,
    claim: Seq<char>,
    status: Seq<char>,
    transition: Option<Seq<char>>,
) -> JsonView {
    JsonView::Object(json::fields6(json::fv("claim_id"@, JsonView::Text(claim_id)), json::fv("claim_digest"@, JsonView::Text(claim)), json::fv("source_claim_id"@, JsonView::Text(p.source.claim.claim_id)), json::fv("source_digest"@, JsonView::Text(p.source.digest)), json::fv("status"@, JsonView::Text(status)), json::fv("transition_id"@, json::text_or_null(transition))))
}

pub fn promotion_result(
    p: &Promotion,
    claim_id: &Id128,
    claim: &Digest,
    status: &String,
    transition: &Option<Id128>,
) -> (r: Json)
    ensures
        r@ == promoted_result(p@, claim_id@, claim@, status@, value::opt_view(*transition)),
{
    let f = json::field(json::no_fields(), "claim_id", json::text_json(claim_id.text.as_str()));
    let f = json::field(f, "claim_digest", json::text_json(claim.text.as_str()));
    let f = json::field(f, "source_claim_id", json::text_json(p.source.claim.claim_id.text.as_str()));
    let f = json::field(f, "source_digest", json::text_json(p.source.digest.text.as_str()));
    let f = json::field(f, "status", json::text_json(status.as_str()));
    let f = json::field(f, "transition_id", json::id_or_null(transition));
    json::record(f)
}

// ---------- child.spawn ----------

/// The longest prompt of a child, in bytes.
pub const CHILD_PROMPT_MAX: usize = 8192;

/// The most that a child may be given.
pub const CHILD_DEADLINE_MAX: u64 = 60;

pub const CHILD_TOKENS_MAX: u64 = 20_000;

pub const CHILD_TOOLS_MAX: u64 = 16;

/// A requested budget, clamped.
pub open spec fn clamped(spec: Option<JsonView>, name: Seq<char>, max: u64) -> u64 {
    match spec {
        Some(v) => match json::unsigned_member(v, name) {
            Some(n) => if n < max {
                n
            } else {
                max
            },
            None => max,
        },
        None => max,
    }
}

/// What a child run is given, or why it is refused. A child spawns no
/// children.
pub open spec fn child_plan(is_child: bool, args: JsonView, children: u64, cap: Option<u64>) -> Result<
    Budgets,
    Seq<char>,
> {
    if is_child {
        Err("children cannot spawn children"@)
    } else {
        match json::text_member(args, "prompt"@) {
            None => Err("child.spawn requires a prompt"@),
            Some(prompt) => if text::byte_len(prompt) > CHILD_PROMPT_MAX {
                Err("child.spawn prompt exceeds 8192 chars"@)
            } else if children >= (match cap {
                Some(n) => n,
                None => u64::MAX,
            }) {
                Err("child budget exhausted"@)
            } else {
                let spec = json::member(args, "budgets"@);
                Ok(
                    Budgets {
                        deadline_secs: Some(clamped(spec, "deadline_secs"@, CHILD_DEADLINE_MAX)),
                        tokens: Some(clamped(spec, "tokens"@, CHILD_TOKENS_MAX)),
                        tools: Some(clamped(spec, "tools"@, CHILD_TOOLS_MAX)),
                        children: Some(0),
                    },
                )
            },
        }
    }
}

fn clamp(spec: Option<&Json>, name: &str, max: u64) -> (r: u64)
    ensures
        r == clamped(
            match spec {
                Some(v) => Some(v@),
                None => None,
            },
            name@,
            max,
        ),
{
    match spec {
        Some(v) => match v.get_unsigned(name) {
            Some(n) => if n < max {
                n
            } else {
                max
            },
            None => max,
        },
        None => max,
    }
}

/// Plans a child run; `children` is how many the parent already has, and
/// `cap` how many it may have.
pub fn plan_child_spawn(is_child: bool, args: &Json, children: u64, cap: Option<u64>) -> (r: Result<
    Budgets,
    String,
>)
    ensures
        match r {
            Ok(b) => child_plan(is_child, args@, children, cap) == Ok::<Budgets, Seq<char>>(b),
            Err(e) => child_plan(is_child, args@, children, cap) == Err::<Budgets, Seq<char>>(
                e@,
            ),
        },
{
    if is_child {
        return Err("children cannot spawn children".to_owned());
    }
    let prompt = match args.get_text("prompt") {
        Some(p) => p,
        None => return Err("child.spawn requires a prompt".to_owned()),
    };
    if prompt.as_str().as_bytes().len() > CHILD_PROMPT_MAX {
        return Err("child.spawn prompt exceeds 8192 chars".to_owned());
    }
    let most = match cap {
        Some(n) => n,
        None => u64::MAX,
    };
    if children >= most {
        return Err("child budget exhausted".to_owned());
    }
    let spec = args.get("budgets");
    Ok(
        Budgets {
            deadline_secs: Some(clamp(spec, "deadline_secs", CHILD_DEADLINE_MAX)),
            tokens: Some(clamp(spec, "tokens", CHILD_TOKENS_MAX)),
            tools: Some(clamp(spec, "tools", CHILD_TOOLS_MAX)),
            children: Some(0),
        },
    )
}

/// What a child run returns to its parent.
pub open spec fn child_result(run: Seq<char>, outcome: Seq<char>, tokens: u64, tools: u64) -> JsonView {
    JsonView::Object(
        json::fields3(
            json::fv("run_id"@, JsonView::Text(run)),
            json::fv("outcome"@, JsonView::Text(outcome)),
            json::fv("usage"@, JsonView::Object(json::fields2(json::fv("tokens"@, JsonView::Unsigned(tokens)), json::fv("tools"@, JsonView::Unsigned(tools))))),
        ),
    )
}

pub fn child_spawn_result(run: &str, outcome: &str, tokens: u64, tools: u64) -> (r: Json)
    ensures
        r@ == child_result(run@, outcome@, tokens, tools),
{
    let u = json::field(json::no_fields(), "tokens", Json::Unsigned(tokens));
    let u = json::field(u, "tools", Json::Unsigned(tools));
    let f = json::field(json::no_fields(), "run_id", json::text_json(run));
    let f = json::field(f, "outcome", json::text_json(outcome));
    let f = json::field(f, "usage", json::record(u));
    json::record(f)
}

// ---------- laws ----------

/// A child searches no lifetime memory, whatever it asks for.
pub proof fn law_children_do_not_see_lifetime_memory(
    args: JsonView,
    project: Option<Seq<char>>,
    i: int,
)
    requires
        0 <= i < searched_scopes(args, project, true).len(),
    ensures
        searched_scopes(args, project, true)[i] is Project,
{
    match json::member(args, "scopes"@) {
        Some(JsonView::List(names)) => lemma_granted_to_child(names, project, i),
        _ => {},
    }
}

proof fn lemma_granted_to_child(names: Seq<JsonView>, project: Option<Seq<char>>, i: int)
    requires
        0 <= i < granted_scopes(names, project, true).len(),
    ensures
        granted_scopes(names, project, true)[i] is Project,
    decreases names.len(),
{
    let rest = granted_scopes(names.drop_last(), project, true);
    if i < rest.len() {
        lemma_granted_to_child(names.drop_last(), project, i);
    }
}

/// A proposal without an approval moves no root: it ends without a
/// transition, from whatever phase it comes.
pub proof fn law_unapproved_proposals_move_no_root(
    p: ProposeFlowView,
    fold: RootFoldView,
    edge: Seq<char>,
    head: Option<Seq<char>>,
    now: Option<Seq<char>>,
)
    requires
        p.intent.approval is None,
        !(p.phase is Claim || p.phase is Edge),
    ensures
        !(after_proposal_commit(p, head, now).phase is Claim),
        !(after_lookup(p, fold, now).phase is Claim),
        !(after_edge_install(p, edge, head, now).phase is Claim),
{
}

/// The superseded claim is retracted only after its successor was approved.
pub proof fn law_retraction_follows_approval(
    p: ProposeFlowView,
    status: Seq<char>,
    transition: Option<Seq<char>>,
    head: Option<Seq<char>>,
    now: Option<Seq<char>>,
)
    requires
        p.phase is Claim,
    ensures
        after_claim(p, status, transition, head, now).phase is Edge <==> status == "approved"@
            && p.edge is Some && p.intent.approval is Some,
{
}

/// A child's budgets keep to the clamps, and leave it no children.
pub proof fn law_child_budgets_are_clamped(
    args: JsonView,
    children: u64,
    cap: Option<u64>,
)
    ensures
        child_plan(false, args, children, cap) matches Ok(b) ==> {
            &&& b.deadline_secs matches Some(n) && n <= CHILD_DEADLINE_MAX
            &&& b.tokens matches Some(n) && n <= CHILD_TOKENS_MAX
            &&& b.tools matches Some(n) && n <= CHILD_TOOLS_MAX
            &&& b.children == Some(0u64)
        },
        child_plan(true, args, children, cap) is Err,
{
}

/// A search is over the scopes that were asked for and may be searched, in their
/// order: the project's where one is bound, and the lifetime scope for a run that
/// is no child. Without a list it is over all of them, the project first.
pub proof fn law_searches_cover_the_granted_scopes(
    names: Seq<JsonView>,
    name: JsonView,
    args: JsonView,
    project: Option<Seq<char>>,
    is_child: bool,
)
    ensures
        granted_scopes(Seq::empty(), project, is_child).len() == 0,
        ({
            let before = granted_scopes(names, project, is_child);
            let after = granted_scopes(names.push(name), project, is_child);
            &&& name == JsonView::Text("project"@) && project is Some ==> after == before.push(
                MemoryScopeView::Project(project->0),
            )
            &&& name == JsonView::Text("lifetime"@) && !is_child ==> after == before.push(
                MemoryScopeView::Lifetime,
            )
            &&& !(name == JsonView::Text("project"@) && project is Some) && !(name
                == JsonView::Text("lifetime"@) && !is_child) ==> after == before
        }),
        json::member(args, "scopes"@) matches Some(JsonView::List(l)) ==> searched_scopes(
            args,
            project,
            is_child,
        ) == granted_scopes(l, project, is_child),
        !(json::member(args, "scopes"@) matches Some(JsonView::List(l))) ==> ({
            let all = searched_scopes(args, project, is_child);
            let n: int = if project is Some { 1 } else { 0 };
            &&& all.len() == if is_child { n } else { n + 1 }
            &&& project matches Some(p) ==> all[0] == MemoryScopeView::Project(p)
            &&& !is_child ==> all[n] is Lifetime
        }),
{
    assert(names.push(name).drop_last() =~= names);
    reveal_strlit("project");
    reveal_strlit("lifetime");
    assert("project"@.len() == 7 && "lifetime"@.len() == 8);
}

/// A search asks what it was asked, for at most as many results as were asked for
/// and 16 where none were, over an index that is brought up to the roots that the
/// run sees: the pinned ones, or the heads.
pub proof fn law_queries_are_planned_as_asked(
    args: JsonView,
    project: Option<Seq<char>>,
    is_child: bool,
    pinned: Option<PinnedRootsView>,
    lifetime_head: Option<Seq<char>>,
    project_head: Option<Seq<char>>,
)
    ensures
        ({
            let plan = query_plan(
                args,
                project,
                is_child,
                pinned,
                lifetime_head,
                project_head,
            );
            let lifetime = if pinned is Some { Some(pinned->0.lifetime) } else { lifetime_head };
            let own = if pinned is Some { pinned->0.project } else { project_head };
            let n: int = if lifetime is Some { 1 } else { 0 };
            let both = project is Some && own is Some;
            &&& plan is Ok <==> json::text_member(args, "query"@) is Some
            &&& plan matches Ok(p) ==> {
                &&& json::text_member(args, "query"@) == Some(p.query)
                &&& p.scopes == searched_scopes(args, project, is_child)
                &&& json::unsigned_member(args, "max_results"@) is None ==> p.max_results == 16
                &&& json::unsigned_member(args, "max_results"@) matches Some(m) ==> p.max_results
                    == m
                &&& p.index.len() == if both { n + 1 } else { n }
                &&& lifetime matches Some(l) ==> p.index[0].scope is Lifetime && p.index[0].root
                    == l
                &&& both ==> p.index[n].scope == MemoryScopeView::Project(project->0)
                    && p.index[n].root == own->0
            }
        }),
{
}

/// A proposal is read exactly if a project is bound and the claim has a kind and a
/// content; it is internal unless it says otherwise, and supersedes the claim that
/// it names.
pub proof fn law_proposals_are_read_as_given(project: bool, args: JsonView, codec: CodecView)
    ensures
        proposal_of(project, args, codec) is Ok <==> project && (json::member(
            args,
            "claim"@,
        ) matches Some(c) && json::text_member(c, "kind"@) is Some && json::text_member(
            c,
            "content"@,
        ) is Some),
        proposal_of(project, args, codec) matches Ok(p) ==> (json::member(
            args,
            "claim"@,
        ) matches Some(c) && {
            &&& json::text_member(c, "kind"@) == Some(p.kind)
            &&& json::text_member(c, "content"@) == Some(p.content)
            &&& json::text_member(c, "sensitivity"@) is None ==> p.sensitivity == "internal"@
            &&& json::text_member(c, "sensitivity"@) matches Some(s) ==> p.sensitivity == s
            &&& p.supersedes == event::id_member(codec, c, "supersedes"@)
        }),
{
}

/// An approved proposal goes on to a transition of its project that adds its claim
/// on top of the head, under the approval; one that supersedes a claim looks that
/// up first, and fails where it does not hold.
pub proof fn law_proposals_go_on_to_their_transition(
    p: ProposeFlowView,
    fold: RootFoldView,
    edge: Seq<char>,
    head: Option<Seq<char>>,
    now: Option<Seq<char>>,
)
    ensures
        p.proposal.supersedes matches Some(t) ==> after_proposal_commit(p, head, now).phase == (
        ProposePhaseView::LookUp { target: t }),
        p.proposal.supersedes is None && p.intent.approval is Some ==> (
        after_proposal_commit(p, head, now).phase matches ProposePhaseView::Claim(r) && {
            &&& r.scope == MemoryScopeView::Project(p.project)
            &&& r.scope_document == p.scope_document
            &&& r.kind == TransitionKind::RootApproval
            &&& r.added_claims == seq![p.claim_digest]
            &&& r.added_edges.len() == 0
            &&& r.retracted.len() == 0
            &&& Some(r.decision_digest) == p.intent.approval
            &&& r.deferred_claim == p.claim_digest
            &&& r.expected_root == head
            &&& r.origin_kind == "memory_root_approved"@
        }),
        p.phase matches ProposePhaseView::LookUp { target } ==> {
            let after = after_lookup(p, fold, now).phase;
            &&& memory::active(fold, target) matches Some(d) ==> after == (
            ProposePhaseView::InstallEdge { target, target_digest: d })
            &&& memory::active(fold, target) is None ==> (after matches ProposePhaseView::Done(o)
                && o.error == Some("supersedes target not found"@))
        },
        p.phase matches ProposePhaseView::InstallEdge { target_digest, .. } ==> {
            let after = after_edge_install(p, edge, head, now);
            &&& after.edge matches Some(e) && e.edge == edge && e.target == target_digest
            &&& p.intent.approval is Some ==> after.phase is Claim
        },
{
    if p.proposal.supersedes is None && p.intent.approval is Some {
        let r = claim_request(p, p.intent.approval->0, head);
        assert(r.added_claims =~= seq![p.claim_digest]);
    }
}

/// The edge that follows an approved claim adds itself and retracts the superseded
/// claim, and no other. A proposal ends with the status of its last transition.
pub proof fn law_superseded_claims_are_retracted(
    p: ProposeFlowView,
    status: Seq<char>,
    transition: Option<Seq<char>>,
    head: Option<Seq<char>>,
    now: Option<Seq<char>>,
)
    ensures
        after_claim(p, status, transition, head, now).phase matches ProposePhaseView::Edge(r)
            ==> {
            &&& r.scope == MemoryScopeView::Project(p.project)
            &&& r.added_claims.len() == 0
            &&& r.added_edges == seq![p.edge->0.edge]
            &&& r.retracted == seq![p.edge->0.target]
            &&& Some(r.decision_digest) == p.intent.approval
            &&& r.expected_root == head
            &&& r.deferred_claim == p.claim_digest
        },
        after_claim(p, status, transition, head, now).status == status,
        after_claim(p, status, transition, head, now).transition == transition,
        after_edge(p, status, transition, now).status == status,
        transition is Some ==> after_edge(p, status, transition, now).transition == transition,
        transition is None ==> after_edge(p, status, transition, now).transition == p.transition,
        after_edge(p, status, transition, now).phase is Done,
{
    if after_claim(p, status, transition, head, now).phase is Edge {
        let r = after_claim(p, status, transition, head, now).phase->Edge_0;
        assert(r.added_edges =~= seq![p.edge->0.edge]);
        assert(r.retracted =~= seq![p.edge->0.target]);
    }
}

/// A review is read exactly if a project is bound and it names a claim and a
/// decision. An approval is let through exactly if the claim was proposed, does
/// not hold yet and the user approved; a rejection or a request for evidence is
/// recorded of a claim that holds or was proposed; nothing else is a decision.
pub proof fn law_reviews_decide_on_proposals(
    project: bool,
    args: JsonView,
    codec: CodecView,
    request: ReviewRequestView,
    active: Option<Seq<char>>,
    found: Option<Seq<char>>,
    approval: Option<Seq<char>>,
)
    ensures
        review_of(project, args, codec) is Ok <==> project && event::id_member(
            codec,
            args,
            "claim_id"@,
        ) is Some && json::text_member(args, "decision"@) is Some,
        review_of(project, args, codec) matches Ok(r) ==> {
            &&& event::id_member(codec, args, "claim_id"@) == Some(r.claim_id)
            &&& json::text_member(args, "decision"@) == Some(r.decision)
            &&& json::text_member(args, "reason"@) matches Some(t) ==> r.reason == t
        },
        review_plan(request, active, found, approval) is Approve <==> request.decision
            == "approve"@ && active is None && found is Some && approval is Some,
        review_plan(request, active, found, approval) matches ReviewPlanView::Approve {
            digest,
            approval: a,
        } ==> found == Some(digest) && approval == Some(a),
        review_plan(request, active, found, approval) is Record <==> (request.decision
            == "reject"@ || request.decision == "request_evidence"@) && (active is Some
            || found is Some),
        review_plan(request, active, found, approval) matches ReviewPlanView::Record {
            kind,
            digest,
        } ==> (request.decision == "reject"@ ==> kind == "memory_proposal_rejected"@) && (
        request.decision == "request_evidence"@ ==> kind == "memory_evidence_requested"@) && (
        active is Some ==> active == Some(digest)) && (active is None ==> found == Some(digest)),
{
    reveal_strlit("approve");
    reveal_strlit("reject");
    reveal_strlit("request_evidence");
    assert("approve"@.len() == 7 && "reject"@.len() == 6 && "request_evidence"@.len() == 16);
}

/// An approved review adds the claim to its project on top of the head, and a
/// promotion the new claim and its edge to the lifetime scope; neither retracts
/// anything.
pub proof fn law_approvals_add_their_claim(
    project: Seq<char>,
    scope_document: JsonView,
    digest: Seq<char>,
    approval: Seq<char>,
    head: Option<Seq<char>>,
    p: PromotionView,
    edge: Seq<char>,
)
    ensures
        ({
            let r = review_request(project, scope_document, digest, approval, head);
            &&& r.scope == MemoryScopeView::Project(project)
            &&& r.scope_document == scope_document
            &&& r.kind == TransitionKind::RootApproval
            &&& r.origin_kind == "memory_root_approved"@
            &&& r.added_claims == seq![digest]
            &&& r.added_edges.len() == 0 && r.retracted.len() == 0
            &&& r.decision_digest == approval
            &&& r.deferred_claim == digest
            &&& r.expected_root == head
        }),
        ({
            let r = promotion_request(p, scope_document, digest, edge, head);
            &&& r.scope is Lifetime
            &&& r.scope_document == scope_document
            &&& r.kind == TransitionKind::Promotion
            &&& r.origin_kind == "memory_promotion_approved"@
            &&& r.added_claims == seq![digest]
            &&& r.added_edges == seq![edge]
            &&& r.retracted.len() == 0
            &&& r.decision_digest == p.approval
            &&& r.deferred_claim == digest
            &&& r.expected_root == head
        }),
{
    let a = review_request(project, scope_document, digest, approval, head);
    let b = promotion_request(p, scope_document, digest, edge, head);
    assert(a.added_claims =~= seq![digest]);
    assert(b.added_claims =~= seq![digest]);
    assert(b.added_edges =~= seq![edge]);
}

/// A promotion is let through exactly if a project is bound, it names a claim that
/// holds there, and the user approved; it promotes that claim, with the evidence
/// given.
pub proof fn law_promotions_need_an_active_claim(
    project: bool,
    args: JsonView,
    codec: CodecView,
    fold: RootFoldView,
    approval: Option<Seq<char>>,
)
    ensures
        promotion_of(project, args, codec, fold, approval) is Ok <==> project && (event::id_member(
            codec,
            args,
            "claim_id"@,
        ) matches Some(id) && memory::claim_of(fold.claims, id) is Some) && approval is Some,
        promotion_of(project, args, codec, fold, approval) matches Ok(p) ==> {
            &&& event::id_member(codec, args, "claim_id"@) matches Some(id) && memory::claim_of(
                fold.claims,
                id,
            ) == Some(p.source)
            &&& approval == Some(p.approval)
            &&& json::text_member(args, "evidence"@) matches Some(t) ==> p.evidence == t
        },
{
}

/// A child is spawned exactly if its parent is no child, it has a prompt of at most
/// 8192 bytes, and the parent may still have one. It gets what was asked for, up
/// to a minute, 20000 tokens and 16 tools.
pub proof fn law_children_are_spawned_within_bounds(
    is_child: bool,
    args: JsonView,
    children: u64,
    cap: Option<u64>,
    spec: Option<JsonView>,
    name: Seq<char>,
    max: u64,
)
    ensures
        child_plan(is_child, args, children, cap) is Ok <==> !is_child && (json::text_member(
            args,
            "prompt"@,
        ) matches Some(t) && text::byte_len(t) <= 8192) && children < (if cap is Some {
            cap->0
        } else {
            u64::MAX
        }),
        child_plan(is_child, args, children, cap) matches Ok(b) ==> ({
            let asked = json::member(args, "budgets"@);
            &&& b.deadline_secs == Some(clamped(asked, "deadline_secs"@, 60))
            &&& b.tokens == Some(clamped(asked, "tokens"@, 20000))
            &&& b.tools == Some(clamped(asked, "tools"@, 16))
            &&& b.children == Some(0u64)
        }),
        spec is None ==> clamped(spec, name, max) == max,
        spec matches Some(v) ==> (json::unsigned_member(v, name) is None ==> clamped(
            spec,
            name,
            max,
        ) == max),
        spec matches Some(v) ==> (json::unsigned_member(v, name) matches Some(n) ==> clamped(
            spec,
            name,
            max,
        ) == if n <= max {
            n
        } else {
            max
        }),
{
}

} // verus!
