//! The claims and edges that the memory tools install.
use vstd::prelude::*;
use vstd::string::*;
use crate::ids::{Digest, Id128};
use crate::memory::{EdgeKind, MemoryScope, MemoryScopeView};
use crate::memory_tools;
use crate::memory_tools::{Promotion, PromotionView, Proposal, ProposalView};
use crate::tools::{Principal, PrincipalView, ToolIntent, ToolIntentView};
use crate::value;
use crate::value::Value;

verus! {

broadcast use value::group_views;

/// Where a claim or an edge comes from.
#[derive(Debug, Clone, PartialEq, Eq)]
pub struct Provenance {
    pub session: Id128,
    /// The event of the intent; zero where it was not committed.
    pub event: u64,
    pub source_claims: Vec<Digest>,
    pub evidence_excerpt: String,
}

pub struct ProvenanceView {
    pub session: Seq<char>,
    pub event: u64,
    pub source_claims: Seq<Seq<char>>,
    pub evidence_excerpt: Seq<char>,
}

impl View for Provenance {
    type V = ProvenanceView;

    open spec fn view(&self) -> ProvenanceView {
        ProvenanceView {
            session: self.session@,
            event: self.event,
            source_claims: value::views(self.source_claims@),
            evidence_excerpt: self.evidence_excerpt@,
        }
    }
}

impl Value for Provenance {
    fn copy(&self) -> (r: Self) {
        Provenance {
            session: self.session.copy(),
            event: self.event,
            source_claims: value::copy_vec(&self.source_claims),
            evidence_excerpt: self.evidence_excerpt.copy(),
        }
    }

    fn same(&self, other: &Self) -> (r: bool) {
        self.session.same(&other.session)
            && self.event == other.event
            && value::same_vec(&self.source_claims, &other.source_claims)
            && self.evidence_excerpt.same(&other.evidence_excerpt)
    }
}

/// A claim to install.
#[derive(Debug, Clone, PartialEq, Eq)]
pub struct ClaimRecord {
    pub claim_id: Id128,
    pub kind: String,
    pub content: String,
    pub owner: Principal,
    pub visibility_scope: MemoryScope,
    pub provenance: Provenance,
    pub observed_at: Option<u64>,
    pub valid_from: Option<u64>,
    pub sensitivity: String,
}

pub struct ClaimRecordView {
    pub claim_id: Seq<char>,
    pub kind: Seq<char>,
    pub content: Seq<char>,
    pub owner: PrincipalView,
    pub visibility_scope: MemoryScopeView,
    pub provenance: ProvenanceView,
    pub observed_at: Option<u64>,
    pub valid_from: Option<u64>,
    pub sensitivity: Seq<char>,
}

impl View for ClaimRecord {
    type V = ClaimRecordView;

    open spec fn view(&self) -> ClaimRecordView {
        ClaimRecordView {
            claim_id: self.claim_id@,
            kind: self.kind@,
            content: self.content@,
            owner: self.owner@,
            visibility_scope: self.visibility_scope@,
            provenance: self.provenance@,
            observed_at: self.observed_at,
            valid_from: self.valid_from,
            sensitivity: self.sensitivity@,
        }
    }
}

/// An edge to install.
#[derive(Debug, Clone, PartialEq, Eq)]
pub struct EdgeRecord {
    pub from: Id128,
    pub to: Option<Id128>,
    pub kind: EdgeKind,
    pub entity_keys: Vec<String>,
    pub provenance: Provenance,
}

pub struct EdgeRecordView {
    pub from: Seq<char>,
    pub to: Option<Seq<char>>,
    pub kind: EdgeKind,
    pub entity_keys: Seq<Seq<char>>,
    pub provenance: ProvenanceView,
}

impl View for EdgeRecord {
    type V = EdgeRecordView;

    open spec fn view(&self) -> EdgeRecordView {
        EdgeRecordView {
            from: self.from@,
            to: value::opt_view(self.to),
            kind: self.kind,
            entity_keys: value::views(self.entity_keys@),
            provenance: self.provenance@,
        }
    }
}

// ---------- proposals ----------

/// A proposal comes from its intent alone.
pub open spec fn proposed_from(session: Seq<char>, intent: ToolIntentView) -> ProvenanceView {
    ProvenanceView {
        session,
        event: memory_tools::source_event(intent),
        source_claims: Seq::empty(),
        evidence_excerpt: ""@,
    }
}

pub fn proposal_provenance(session: &Id128, intent: &ToolIntent) -> (r: Provenance)
    ensures
        r@ == proposed_from(session@, intent@),
{
    Provenance {
        session: session.copy(),
        event: memory_tools::claim_source(intent),
        source_claims: Vec::new(),
        evidence_excerpt: "".to_owned(),
    }
}

/// The claim of a proposal: the project's, and the proposer's.
pub open spec fn proposed(
    session: Seq<char>,
    intent: ToolIntentView,
    p: ProposalView,
    claim_id: Seq<char>,
    project: Seq<char>,
) -> ClaimRecordView {
    ClaimRecordView {
        claim_id,
        kind: p.kind,
        content: p.content,
        owner: intent.principal,
        visibility_scope: MemoryScopeView::Project(project),
        provenance: proposed_from(session, intent),
        observed_at: None,
        valid_from: None,
        sensitivity: p.sensitivity,
    }
}

pub fn proposed_claim(
    session: &Id128,
    intent: &ToolIntent,
    p: &Proposal,
    claim_id: &Id128,
    project: &Id128,
) -> (r: ClaimRecord)
    ensures
        r@ == proposed(session@, intent@, p@, claim_id@, project@),
{
    ClaimRecord {
        claim_id: claim_id.copy(),
        kind: p.kind.clone(),
        content: p.content.clone(),
        owner: intent.principal.copy(),
        visibility_scope: MemoryScope::Project(project.copy()),
        provenance: proposal_provenance(session, intent),
        observed_at: None,
        valid_from: None,
        sensitivity: p.sensitivity.clone(),
    }
}

/// The edge of a proposal that supersedes a claim. It departs from the claim
/// that it retracts, toward the successor: edges point only to claims that are
/// committed by then.
pub open spec fn superseding(
    session: Seq<char>,
    intent: ToolIntentView,
    target: Seq<char>,
    claim_id: Seq<char>,
) -> EdgeRecordView {
    EdgeRecordView {
        from: target,
        to: Some(claim_id),
        kind: EdgeKind::Supersedes,
        entity_keys: Seq::empty(),
        provenance: proposed_from(session, intent),
    }
}

pub fn supersede_edge(
    session: &Id128,
    intent: &ToolIntent,
    target: &Id128,
    claim_id: &Id128,
) -> (r: EdgeRecord)
    ensures
        r@ == superseding(session@, intent@, target@, claim_id@),
{
    EdgeRecord {
        from: target.copy(),
        to: Some(claim_id.copy()),
        kind: EdgeKind::Supersedes,
        entity_keys: Vec::new(),
        provenance: proposal_provenance(session, intent),
    }
}

// ---------- promotions ----------

/// A promotion comes from the claim it promotes, with the evidence given.
pub open spec fn promoted_from(
    session: Seq<char>,
    intent: ToolIntentView,
    p: PromotionView,
) -> ProvenanceView {
    ProvenanceView {
        session,
        event: memory_tools::source_event(intent),
        source_claims: Seq::empty().push(p.source.digest),
        evidence_excerpt: p.evidence,
    }
}

/// The provenance of a promotion. The host bounds the excerpt before it
/// installs what carries it.
pub fn promotion_provenance(session: &Id128, intent: &ToolIntent, p: &Promotion) -> (r: Provenance)
    ensures
        r@ == promoted_from(session@, intent@, p@),
{
    let mut source_claims: Vec<Digest> = Vec::new();
    source_claims.push(p.source.digest.copy());
    Provenance {
        session: session.copy(),
        event: memory_tools::claim_source(intent),
        source_claims,
        evidence_excerpt: p.evidence.clone(),
    }
}

/// The claim of a promotion: a new one, of the lifetime scope, that says what
/// its source says.
pub open spec fn promoted(
    p: PromotionView,
    claim_id: Seq<char>,
    owner: PrincipalView,
    provenance: ProvenanceView,
) -> ClaimRecordView {
    ClaimRecordView {
        claim_id,
        kind: p.source.claim.kind,
        content: p.source.claim.content,
        owner,
        visibility_scope: MemoryScopeView::Lifetime,
        provenance,
        observed_at: p.source.claim.observed_at,
        valid_from: p.source.claim.valid_from,
        sensitivity: p.source.claim.sensitivity,
    }
}

pub fn promoted_claim(
    p: &Promotion,
    claim_id: &Id128,
    owner: &Principal,
    provenance: &Provenance,
) -> (r: ClaimRecord)
    ensures
        r@ == promoted(p@, claim_id@, owner@, provenance@),
{
    ClaimRecord {
        claim_id: claim_id.copy(),
        kind: p.source.claim.kind.clone(),
        content: p.source.claim.content.clone(),
        owner: owner.copy(),
        visibility_scope: MemoryScope::Lifetime,
        provenance: provenance.copy(),
        observed_at: p.source.claim.observed_at,
        valid_from: p.source.claim.valid_from,
        sensitivity: p.source.claim.sensitivity.clone(),
    }
}

/// The edge of a promotion, from the new claim to its source.
pub open spec fn promoting(
    p: PromotionView,
    claim_id: Seq<char>,
    provenance: ProvenanceView,
) -> EdgeRecordView {
    EdgeRecordView {
        from: claim_id,
        to: Some(p.source.claim.claim_id),
        kind: EdgeKind::PromotedFrom,
        entity_keys: Seq::empty(),
        provenance,
    }
}

pub fn promotion_edge(p: &Promotion, claim_id: &Id128, provenance: &Provenance) -> (r: EdgeRecord)
    ensures
        r@ == promoting(p@, claim_id@, provenance@),
{
    EdgeRecord {
        from: claim_id.copy(),
        to: Some(p.source.claim.claim_id.copy()),
        kind: EdgeKind::PromotedFrom,
        entity_keys: Vec::new(),
        provenance: provenance.copy(),
    }
}

// ---------- laws ----------

/// A proposed claim says what was proposed, belongs to the proposer and its
/// project, and comes from the session and the event of its intent.
pub proof fn law_proposed_claims_say_what_was_proposed(
    session: Seq<char>,
    intent: ToolIntentView,
    p: ProposalView,
    claim_id: Seq<char>,
    project: Seq<char>,
)
    ensures
        ({
            let c = proposed(session, intent, p, claim_id, project);
            &&& c.claim_id == claim_id
            &&& c.kind == p.kind
            &&& c.content == p.content
            &&& c.sensitivity == p.sensitivity
            &&& c.owner == intent.principal
            &&& c.visibility_scope == MemoryScopeView::Project(project)
            &&& c.provenance.session == session
            &&& intent.intent_event matches Some(seq) ==> c.provenance.event == seq
            &&& intent.intent_event is None ==> c.provenance.event == 0
            &&& c.provenance.source_claims.len() == 0
        }),
{
}

/// The edge of a superseding proposal departs from the superseded claim and points
/// to its successor.
pub proof fn law_superseding_edges_point_to_the_successor(
    session: Seq<char>,
    intent: ToolIntentView,
    target: Seq<char>,
    claim_id: Seq<char>,
)
    ensures
        superseding(session, intent, target, claim_id).from == target,
        superseding(session, intent, target, claim_id).to == Some(claim_id),
        superseding(session, intent, target, claim_id).kind == EdgeKind::Supersedes,
        superseding(session, intent, target, claim_id).provenance.session == session,
{
}

/// A promoted claim says in the lifetime scope what its source says in the
/// project's, under its own identity; it and its edge name the source, and the
/// evidence that was given.
pub proof fn law_promoted_claims_say_what_their_source_says(
    session: Seq<char>,
    intent: ToolIntentView,
    p: PromotionView,
    claim_id: Seq<char>,
    owner: PrincipalView,
)
    ensures
        ({
            let from = promoted_from(session, intent, p);
            let c = promoted(p, claim_id, owner, from);
            let e = promoting(p, claim_id, from);
            &&& c.claim_id == claim_id
            &&& c.kind == p.source.claim.kind
            &&& c.content == p.source.claim.content
            &&& c.sensitivity == p.source.claim.sensitivity
            &&& c.observed_at == p.source.claim.observed_at
            &&& c.valid_from == p.source.claim.valid_from
            &&& c.owner == owner
            &&& c.visibility_scope is Lifetime
            &&& c.provenance == from
            &&& from.session == session
            &&& from.source_claims == seq![p.source.digest]
            &&& from.evidence_excerpt == p.evidence
            &&& intent.intent_event matches Some(seq) ==> from.event == seq
            &&& e.from == claim_id
            &&& e.to == Some(p.source.claim.claim_id)
            &&& e.kind == EdgeKind::PromotedFrom
            &&& e.provenance == from
        }),
{
    assert(promoted_from(session, intent, p).source_claims =~= seq![p.source.digest]);
}

} // verus!
