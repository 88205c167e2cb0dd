//! Memory: claims, folds of a scope, and their rendering.
use vstd::prelude::*;
use vstd::string::*;
use crate::event;
use crate::event::{Codec, CodecView, LogRecord, LogRecordView};
use crate::ids::{Digest, Id128};
use crate::order;
use crate::order::Keyed;
use crate::text;
use crate::value;
use crate::value::Value;

verus! {

broadcast use value::group_views;

/// Whose memory it is.
#[derive(Debug, Clone, PartialEq, Eq)]
pub enum MemoryScope {
    Lifetime,
    Project(Id128),
}

pub enum MemoryScopeView {
    Lifetime,
    Project(Seq<char>),
}

impl View for MemoryScope {
    type V = MemoryScopeView;

    open spec fn view(&self) -> MemoryScopeView {
        match *self {
            MemoryScope::Lifetime => MemoryScopeView::Lifetime,
            MemoryScope::Project(x) => MemoryScopeView::Project(x@),
        }
    }
}

impl Value for MemoryScope {
    fn copy(&self) -> (r: Self) {
        match self {
            MemoryScope::Lifetime => MemoryScope::Lifetime,
            MemoryScope::Project(x) => MemoryScope::Project(x.copy()),
        }
    }

    fn same(&self, other: &Self) -> (r: bool) {
        match (self, other) {
            (MemoryScope::Lifetime, MemoryScope::Lifetime) => true,
            (MemoryScope::Project(x), MemoryScope::Project(y)) => x.same(y),
            _ => false,
        }
    }
}

/// What a fold says of a claim.
#[derive(Debug, Clone, PartialEq, Eq)]
pub struct Claim {
    pub claim_id: Id128,
    pub kind: String,
    pub content: String,
    pub sensitivity: String,
    /// How sensitive it is: a higher rank is more sensitive.
    pub rank: u64,
    /// The event it came from; zero where there is none.
    pub source_event: u64,
    pub observed_at: Option<u64>,
    pub valid_from: Option<u64>,
}

pub struct ClaimView {
    pub claim_id: Seq<char>,
    pub kind: Seq<char>,
    pub content: Seq<char>,
    pub sensitivity: Seq<char>,
    pub rank: u64,
    pub source_event: u64,
    pub observed_at: Option<u64>,
    pub valid_from: Option<u64>,
}

impl View for Claim {
    type V = ClaimView;

    open spec fn view(&self) -> ClaimView {
        ClaimView {
            claim_id: self.claim_id@,
            kind: self.kind@,
            content: self.content@,
            sensitivity: self.sensitivity@,
            rank: self.rank,
            source_event: self.source_event,
            observed_at: self.observed_at,
            valid_from: self.valid_from,
        }
    }
}

impl Value for Claim {
    fn copy(&self) -> (r: Self) {
        Claim {
            claim_id: self.claim_id.copy(),
            kind: self.kind.copy(),
            content: self.content.copy(),
            sensitivity: self.sensitivity.copy(),
            rank: self.rank,
            source_event: self.source_event,
            observed_at: self.observed_at,
            valid_from: self.valid_from,
        }
    }

    fn same(&self, other: &Self) -> (r: bool) {
        self.claim_id.same(&other.claim_id)
            && self.kind.same(&other.kind)
            && self.content.same(&other.content)
            && self.sensitivity.same(&other.sensitivity)
            && self.rank == other.rank
            && self.source_event == other.source_event
            && value::same_opt(&self.observed_at, &other.observed_at)
            && value::same_opt(&self.valid_from, &other.valid_from)
    }
}

/// A claim with the digest of its object.
#[derive(Debug, Clone, PartialEq, Eq)]
pub struct StoredClaim {
    pub digest: Digest,
    pub claim: Claim,
}

pub struct StoredClaimView {
    pub digest: Seq<char>,
    pub claim: ClaimView,
}

impl View for StoredClaim {
    type V = StoredClaimView;

    open spec fn view(&self) -> StoredClaimView {
        StoredClaimView {
            digest: self.digest@,
            claim: self.claim@,
        }
    }
}

impl Value for StoredClaim {
    fn copy(&self) -> (r: Self) {
        StoredClaim {
            digest: self.digest.copy(),
            claim: self.claim.copy(),
        }
    }

    fn same(&self, other: &Self) -> (r: bool) {
        self.digest.same(&other.digest)
            && self.claim.same(&other.claim)
    }
}

/// How a claim bears on another.
#[derive(Debug, Clone, Copy, PartialEq, Eq, Structural)]
pub enum EdgeKind {
    Supersedes,
    Contradicts,
    PromotedFrom,
    Other,
}

/// An edge between claims.
#[derive(Debug, Clone, PartialEq, Eq)]
pub struct ClaimEdge {
    pub from: Id128,
    pub to: Option<Id128>,
    pub kind: EdgeKind,
}

pub struct ClaimEdgeView {
    pub from: Seq<char>,
    pub to: Option<Seq<char>>,
    pub kind: EdgeKind,
}

impl View for ClaimEdge {
    type V = ClaimEdgeView;

    open spec fn view(&self) -> ClaimEdgeView {
        ClaimEdgeView {
            from: self.from@,
            to: value::opt_view(self.to),
            kind: self.kind,
        }
    }
}

impl Value for ClaimEdge {
    fn copy(&self) -> (r: Self) {
        ClaimEdge {
            from: self.from.copy(),
            to: value::copy_opt(&self.to),
            kind: self.kind,
        }
    }

    fn same(&self, other: &Self) -> (r: bool) {
        self.from.same(&other.from)
            && value::same_opt(&self.to, &other.to)
            && self.kind == other.kind
    }
}

/// What a root folds to: the active claims, the edges, and what was retracted.
#[derive(Debug, Clone, PartialEq, Eq)]
pub struct RootFold {
    pub claims: Vec<StoredClaim>,
    pub edges: Vec<ClaimEdge>,
    pub retracted: Vec<StoredClaim>,
}

pub struct RootFoldView {
    pub claims: Seq<StoredClaimView>,
    pub edges: Seq<ClaimEdgeView>,
    pub retracted: Seq<StoredClaimView>,
}

impl View for RootFold {
    type V = RootFoldView;

    open spec fn view(&self) -> RootFoldView {
        RootFoldView {
            claims: value::views(self.claims@),
            edges: value::views(self.edges@),
            retracted: value::views(self.retracted@),
        }
    }
}

impl Value for RootFold {
    fn copy(&self) -> (r: Self) {
        RootFold {
            claims: value::copy_vec(&self.claims),
            edges: value::copy_vec(&self.edges),
            retracted: value::copy_vec(&self.retracted),
        }
    }

    fn same(&self, other: &Self) -> (r: bool) {
        value::same_vec(&self.claims, &other.claims)
            && value::same_vec(&self.edges, &other.edges)
            && value::same_vec(&self.retracted, &other.retracted)
    }
}

/// The stable memory of a scope, as the projection shows it.
#[derive(Debug, Clone, PartialEq, Eq)]
pub struct MemorySource {
    pub root: Digest,
    pub text: String,
    pub sensitivity: String,
    pub claim_digests: Vec<Digest>,
}

pub struct MemorySourceView {
    pub root: Seq<char>,
    pub text: Seq<char>,
    pub sensitivity: Seq<char>,
    pub claim_digests: Seq<Seq<char>>,
}

impl View for MemorySource {
    type V = MemorySourceView;

    open spec fn view(&self) -> MemorySourceView {
        MemorySourceView {
            root: self.root@,
            text: self.text@,
            sensitivity: self.sensitivity@,
            claim_digests: value::views(self.claim_digests@),
        }
    }
}

impl Value for MemorySource {
    fn copy(&self) -> (r: Self) {
        MemorySource {
            root: self.root.copy(),
            text: self.text.copy(),
            sensitivity: self.sensitivity.copy(),
            claim_digests: value::copy_vec(&self.claim_digests),
        }
    }

    fn same(&self, other: &Self) -> (r: bool) {
        self.root.same(&other.root)
            && self.text.same(&other.text)
            && self.sensitivity.same(&other.sensitivity)
            && value::same_vec(&self.claim_digests, &other.claim_digests)
    }
}

/// A fold of nothing.
pub open spec fn nothing() -> RootFoldView {
    RootFoldView { claims: Seq::empty(), edges: Seq::empty(), retracted: Seq::empty() }
}

pub fn empty_fold() -> (r: RootFold)
    ensures
        r@ == nothing(),
{
    RootFold { claims: Vec::new(), edges: Vec::new(), retracted: Vec::new() }
}

// ---------- lookup ----------

/// The first claim of an identity.
pub open spec fn claim_of(s: Seq<StoredClaimView>, id: Seq<char>) -> Option<StoredClaimView>
    decreases s.len(),
{
    if s.len() == 0 {
        None
    } else if s[0].claim.claim_id == id {
        Some(s[0])
    } else {
        claim_of(s.drop_first(), id)
    }
}

/// The digest of an active claim.
pub open spec fn active(fold: RootFoldView, id: Seq<char>) -> Option<Seq<char>> {
    match claim_of(fold.claims, id) {
        Some(c) => Some(c.digest),
        None => None,
    }
}

/// Finds the first claim of an identity.
pub fn find_claim(s: &Vec<StoredClaim>, id: &Id128) -> (r: Option<StoredClaim>)
    ensures
        value::opt_view(r) == claim_of(value::views(s@), id@),
{
    let ghost all = value::views(s@);
    let mut i: usize = 0;
    assert(all.skip(0) =~= all);
    while i < s.len()
        invariant
            i <= s.len(),
            all == value::views(s@),
            claim_of(all, id@) == claim_of(all.skip(i as int), id@),
        decreases s.len() - i,
    {
        proof {
            assert(all.skip(i as int)[0] == s@[i as int]@);
            assert(all.skip(i as int).drop_first() =~= all.skip(i + 1));
        }
        if s[i].claim.claim_id.same(id) {
            return Some(s[i].copy());
        }
        i = i + 1;
    }
    None
}

/// The digest of an active claim.
pub fn active_claim(fold: &RootFold, id: &Id128) -> (r: Option<Digest>)
    ensures
        value::opt_view(r) == active(fold@, id@),
{
    match find_claim(&fold.claims, id) {
        Some(c) => Some(c.digest),
        None => None,
    }
}

/// The digest of a proposed claim: that of the last proposal of its identity
/// in the log.
pub open spec fn proposed(
    log: Seq<LogRecordView>,
    codec: CodecView,
    id: Seq<char>,
) -> Option<Seq<char>>
    decreases log.len(),
{
    if log.len() == 0 {
        None
    } else {
        let r = log.last();
        if r.kind == "memory_proposal"@ && event::id_member(codec, r.resolved, "claim_id"@) == Some(
            id,
        ) && event::digest_member(codec, r.resolved, "claim_digest"@) is Some {
            event::digest_member(codec, r.resolved, "claim_digest"@)
        } else {
            proposed(log.drop_last(), codec, id)
        }
    }
}

/// Finds the digest of a proposed claim in the log. Until it is approved, a
/// proposal is in no fold.
pub fn proposed_claim_digest(log: &Vec<LogRecord>, codec: &Codec, id: &Id128) -> (r: Option<Digest>)
    ensures
        value::opt_view(r) == proposed(value::views(log@), codec@, id@),
{
    let ghost all = value::views(log@);
    let mut found: Option<Digest> = None;
    let mut i: usize = 0;
    assert(all.take(0) =~= Seq::empty());
    while i < log.len()
        invariant
            i <= log.len(),
            all == value::views(log@),
            value::opt_view(found) == proposed(all.take(i as int), codec@, id@),
        decreases log.len() - i,
    {
        let r = &log[i];
        proof {
            assert(all.take(i + 1).last() == r@);
            assert(all.take(i + 1).drop_last() =~= all.take(i as int));
        }
        if text::same_text(r.kind.as_str(), "memory_proposal") {
            if let Some(c) = codec.id_in(&r.resolved, "claim_id") {
                if c.same(id) {
                    if let Some(d) = codec.digest_in(&r.resolved, "claim_digest") {
                        found = Some(d);
                    }
                }
            }
        }
        i = i + 1;
    }
    assert(all.take(i as int) =~= all);
    found
}

// ---------- rendering ----------

/// The most bytes of a rendered scope, before the mark of truncation.
pub const SOURCE_MAX: usize = 16384;

/// Claims by their identities.
pub open spec fn claim_order() -> spec_fn(StoredClaimView) -> Seq<Seq<char>> {
    |c: StoredClaimView| Seq::<Seq<char>>::empty().push(c.claim.claim_id)
}

/// One line per claim.
pub open spec fn claim_lines(s: Seq<StoredClaimView>) -> Seq<char>
    decreases s.len(),
{
    if s.len() == 0 {
        Seq::empty()
    } else {
        claim_lines(s.drop_last()) + (s.last().claim.kind + " | "@ + s.last().claim.content
            + "\n"@)
    }
}

/// The text of a scope: its claims in the order of their identities, clipped
/// and marked where it is too long.
pub open spec fn source_text(claims: Seq<StoredClaimView>) -> Seq<char> {
    let lines = claim_lines(order::ordered(claims, claim_order()));
    if text::byte_len(lines) > SOURCE_MAX {
        text::clipped(lines, SOURCE_MAX as nat) + "…[truncated]"@
    } else {
        lines
    }
}

/// The most sensitive claim; the last of them where several are.
pub open spec fn most_sensitive(s: Seq<StoredClaimView>) -> Option<StoredClaimView>
    decreases s.len(),
{
    if s.len() == 0 {
        None
    } else {
        match most_sensitive(s.drop_last()) {
            Some(m) => if m.claim.rank > s.last().claim.rank {
                Some(m)
            } else {
                Some(s.last())
            },
            None => Some(s.last()),
        }
    }
}

pub open spec fn source_sensitivity(s: Seq<StoredClaimView>) -> Seq<char> {
    match most_sensitive(s) {
        Some(m) => m.claim.sensitivity,
        None => "internal"@,
    }
}

/// The digests of the claims, in order.
pub open spec fn digests_of(s: Seq<StoredClaimView>) -> Seq<Seq<char>> {
    s.map_values(|c: StoredClaimView| c.digest)
}

pub open spec fn source(root: Seq<char>, fold: RootFoldView) -> MemorySourceView {
    MemorySourceView {
        root,
        text: source_text(fold.claims),
        sensitivity: source_sensitivity(fold.claims),
        claim_digests: digests_of(fold.claims),
    }
}

fn in_claim_order(claims: &Vec<StoredClaim>) -> (r: Vec<StoredClaim>)
    ensures
        value::views(r@) == order::ordered(value::views(claims@), claim_order()),
{
    let ghost all = value::views(claims@);
    let ghost key = claim_order();
    let mut keyed: Vec<Keyed<StoredClaim>> = Vec::new();
    let mut i: usize = 0;
    assert(order::item_views(keyed@) =~= all.take(0));
    while i < claims.len()
        invariant
            i <= claims.len(),
            all == value::views(claims@),
            key == claim_order(),
            order::item_views(keyed@) == all.take(i as int),
            forall|j: int|
                0 <= j < keyed.len() ==> value::views((#[trigger] keyed@[j]).key@) == key(
                    keyed@[j].item@,
                ),
        decreases claims.len() - i,
    {
        let mut k: Vec<String> = Vec::new();
        k.push(claims[i].claim.claim_id.text.clone());
        let item = claims[i].copy();
        let ghost before = keyed@;
        keyed.push(Keyed { key: k, item });
        proof {
            assert(order::item_views(keyed@) =~= order::item_views(before).push(item@));
            assert(all.take(i + 1) =~= all.take(i as int).push(all[i as int]));
        }
        i = i + 1;
    }
    assert(all.take(i as int) =~= all);
    order::order_items(keyed, Ghost(key))
}

fn render_lines(claims: &Vec<StoredClaim>) -> (r: String)
    ensures
        r@ == claim_lines(value::views(claims@)),
{
    let ghost all = value::views(claims@);
    let mut out = String::new();
    let mut i: usize = 0;
    assert(all.take(0) =~= Seq::empty());
    while i < claims.len()
        invariant
            i <= claims.len(),
            all == value::views(claims@),
            out@ == claim_lines(all.take(i as int)),
        decreases claims.len() - i,
    {
        proof {
            assert(all.take(i + 1).last() == claims@[i as int]@);
            assert(all.take(i + 1).drop_last() =~= all.take(i as int));
        }
        let mut line = text::cat3(
            claims[i].claim.kind.as_str(),
            " | ",
            claims[i].claim.content.as_str(),
        );
        line.append("\n");
        out.append(line.as_str());
        i = i + 1;
    }
    assert(all.take(i as int) =~= all);
    out
}

fn pick_sensitivity(claims: &Vec<StoredClaim>) -> (r: String)
    ensures
        r@ == source_sensitivity(value::views(claims@)),
{
    let ghost all = value::views(claims@);
    if claims.len() == 0 {
        assert(all =~= Seq::empty());
        return "internal".to_owned();
    }
    let mut best: usize = 0;
    let mut i: usize = 1;
    proof {
        reveal_with_fuel(most_sensitive, 2);
        assert(all.take(1).drop_last() =~= Seq::empty());
        assert(all.take(1).last() == all[0]);
    }
    while i < claims.len()
        invariant
            1 <= i <= claims.len(),
            best < i,
            all == value::views(claims@),
            most_sensitive(all.take(i as int)) == Some(all[best as int]),
        decreases claims.len() - i,
    {
        proof {
            assert(all.take(i + 1).last() == claims@[i as int]@);
            assert(all.take(i + 1).drop_last() =~= all.take(i as int));
            assert(all[best as int] == claims@[best as int]@);
        }
        if claims[i].claim.rank >= claims[best].claim.rank {
            best = i;
        }
        i = i + 1;
    }
    assert(all.take(i as int) =~= all);
    claims[best].claim.sensitivity.clone()
}

fn claim_digests(claims: &Vec<StoredClaim>) -> (r: Vec<Digest>)
    ensures
        value::views(r@) == digests_of(value::views(claims@)),
{
    let ghost all = digests_of(value::views(claims@));
    let mut out: Vec<Digest> = Vec::new();
    let mut i: usize = 0;
    assert(value::views(out@) =~= all.take(0));
    while i < claims.len()
        invariant
            i <= claims.len(),
            all == digests_of(value::views(claims@)),
            value::views(out@) == all.take(i as int),
        decreases claims.len() - i,
    {
        out.push(claims[i].digest.copy());
        assert(all.take(i + 1) =~= all.take(i as int).push(all[i as int]));
        i = i + 1;
    }
    assert(all.take(i as int) =~= all);
    out
}

/// Renders the stable memory of a scope.
pub fn render_memory_source(root: &Digest, fold: &RootFold) -> (r: MemorySource)
    ensures
        r@ == source(root@, fold@),
{
    let sorted = in_claim_order(&fold.claims);
    let mut lines = render_lines(&sorted);
    if lines.as_str().as_bytes().len() > SOURCE_MAX {
        lines = text::clip(lines.as_str(), SOURCE_MAX);
        lines.append("…[truncated]");
    }
    MemorySource {
        root: root.copy(),
        text: lines,
        sensitivity: pick_sensitivity(&fold.claims),
        claim_digests: claim_digests(&fold.claims),
    }
}

/// A rendered scope keeps to its bound, the mark of truncation apart.
pub proof fn law_rendered_source_is_bounded(claims: Seq<StoredClaimView>)
    ensures
        text::byte_len(source_text(claims)) <= SOURCE_MAX + text::byte_len("…[truncated]"@),
{
    let lines = claim_lines(order::ordered(claims, claim_order()));
    if text::byte_len(lines) > SOURCE_MAX {
        text::lemma_clipped_fits(lines, SOURCE_MAX as nat);
        text::lemma_encode_add(text::clipped(lines, SOURCE_MAX as nat), "…[truncated]"@);
    }
}

/// No claim of a scope is more sensitive than the rendered scope is said to be.
pub proof fn law_sensitivity_covers_every_claim(s: Seq<StoredClaimView>, i: int)
    requires
        0 <= i < s.len(),
    ensures
        most_sensitive(s) matches Some(m) && s[i].claim.rank <= m.claim.rank,
    decreases s.len(),
{
    if i < s.len() - 1 {
        law_sensitivity_covers_every_claim(s.drop_last(), i);
    }
}

/// A claim is found by its identity: the first of the identity, and none only
/// where none has it.
pub proof fn law_claims_are_found_by_identity(s: Seq<StoredClaimView>, id: Seq<char>, i: int)
    requires
        0 <= i < s.len(),
    ensures
        claim_of(s, id) is None ==> s[i].claim.claim_id != id,
        claim_of(s, id) matches Some(c) ==> c.claim.claim_id == id && s.contains(c),
        s[i].claim.claim_id == id && (forall|j: int|
            0 <= j < i ==> (#[trigger] s[j]).claim.claim_id != id) ==> claim_of(s, id) == Some(
            s[i],
        ),
    decreases s.len(),
{
    if s[0].claim.claim_id == id {
        assert(s.contains(s[0]));
        if i > 0 {
            assert(s[0].claim.claim_id == id);
        }
    } else {
        let t = s.drop_first();
        if t.len() > 0 {
            let j = if i > 0 {
                i - 1
            } else {
                0
            };
            assert(i > 0 ==> t[j] == s[i]);
            if i > 0 && forall|j: int| 0 <= j < i ==> (#[trigger] s[j]).claim.claim_id != id {
                assert forall|k: int| 0 <= k < j implies (#[trigger] t[k]).claim.claim_id != id by {
                    assert(t[k] == s[k + 1]);
                }
            }
            law_claims_are_found_by_identity(t, id, j);
            if claim_of(t, id) is Some {
                let c = claim_of(t, id)->0;
                let k = choose|k: int| 0 <= k < t.len() && t[k] == c;
                assert(s[k + 1] == c);
            }
        }
    }
}

/// The digest of an active claim is that of the claim, and only a claim that holds
/// has one.
pub proof fn law_active_claims_have_their_digest(fold: RootFoldView, id: Seq<char>)
    ensures
        active(fold, id) matches Some(d) ==> (claim_of(fold.claims, id) matches Some(c) && c.digest
            == d),
        active(fold, id) is None <==> claim_of(fold.claims, id) is None,
{
}

/// The last proposal of a claim in the log says what its digest is; other records
/// say nothing of it.
pub proof fn law_the_last_proposal_counts(
    log: Seq<LogRecordView>,
    r: LogRecordView,
    codec: CodecView,
    id: Seq<char>,
)
    ensures
        proposed(Seq::empty(), codec, id) is None,
        proposed(log.push(r), codec, id) == if r.kind == "memory_proposal"@ && event::id_member(
            codec,
            r.resolved,
            "claim_id"@,
        ) == Some(id) && event::digest_member(codec, r.resolved, "claim_digest"@) is Some {
            event::digest_member(codec, r.resolved, "claim_digest"@)
        } else {
            proposed(log, codec, id)
        },
{
    assert(log.push(r).drop_last() =~= log);
}

/// A scope is rendered with one line for each of its claims, its kind and its
/// content, in the order of their identities: whole where that takes at most
/// 16384 bytes, else as much of the start as fits, marked as truncated.
pub proof fn law_every_claim_is_rendered(
    claims: Seq<StoredClaimView>,
    s: Seq<StoredClaimView>,
    c: StoredClaimView,
)
    ensures
        claim_lines(Seq::empty()).len() == 0,
        claim_lines(s.push(c)) == claim_lines(s) + (c.claim.kind + " | "@ + c.claim.content
            + "\n"@),
        ({
            let sorted = order::ordered(claims, claim_order());
            let lines = claim_lines(sorted);
            &&& sorted.to_multiset() == claims.to_multiset()
            &&& forall|i: int, j: int|
                0 <= i <= j < sorted.len() ==> order::key_le(
                    seq![(#[trigger] sorted[i]).claim.claim_id],
                    seq![(#[trigger] sorted[j]).claim.claim_id],
                )
            &&& text::byte_len(lines) <= 16384 ==> source_text(claims) == lines
            &&& text::byte_len(lines) > 16384 ==> exists|k: int|
                0 <= k < lines.len() && text::byte_len(#[trigger] lines.take(k)) <= 16384
                    && source_text(claims) == lines.take(k) + "…[truncated]"@
        }),
{
    assert(s.push(c).drop_last() =~= s);
    let sorted = order::ordered(claims, claim_order());
    let lines = claim_lines(sorted);
    order::lemma_ordered(claims, claim_order());
    assert forall|i: int, j: int| 0 <= i <= j < sorted.len() implies order::key_le(
        seq![(#[trigger] sorted[i]).claim.claim_id],
        seq![(#[trigger] sorted[j]).claim.claim_id],
    ) by {
        assert(claim_order()(sorted[i]) =~= seq![sorted[i].claim.claim_id]);
        assert(claim_order()(sorted[j]) =~= seq![sorted[j].claim.claim_id]);
    }
    if text::byte_len(lines) > 16384 {
        text::lemma_clipped_fits(lines, SOURCE_MAX as nat);
        let k = text::clipped(lines, SOURCE_MAX as nat).len() as int;
        if k == lines.len() {
            assert(lines.take(k) =~= lines);
        }
        assert(source_text(claims) == lines.take(k) + "…[truncated]"@);
    }
}

/// A rendered scope is as sensitive as its most sensitive claim; it lists the
/// digests of all its claims, and names the root it was folded from.
pub proof fn law_rendered_scopes_say_what_they_are(root: Seq<char>, fold: RootFoldView)
    ensures
        source(root, fold).root == root,
        source(root, fold).text == source_text(fold.claims),
        source(root, fold).claim_digests.len() == fold.claims.len(),
        forall|i: int|
            0 <= i < fold.claims.len() ==> #[trigger] source(root, fold).claim_digests[i]
                == fold.claims[i].digest,
        fold.claims.len() == 0 ==> source(root, fold).sensitivity == "internal"@,
        fold.claims.len() > 0 ==> exists|i: int|
            0 <= i < fold.claims.len() && source(root, fold).sensitivity == (
            #[trigger] fold.claims[i]).claim.sensitivity && forall|j: int|
                0 <= j < fold.claims.len() ==> (#[trigger] fold.claims[j]).claim.rank
                    <= fold.claims[i].claim.rank,
{
    let s = fold.claims;
    if s.len() > 0 {
        lemma_most_sensitive(s);
        let m = most_sensitive(s)->0;
        let i = choose|i: int| 0 <= i < s.len() && s[i] == m;
        assert forall|j: int| 0 <= j < s.len() implies (#[trigger] s[j]).claim.rank
            <= s[i].claim.rank by {
            law_sensitivity_covers_every_claim(s, j);
        }
        assert(source(root, fold).sensitivity == s[i].claim.sensitivity);
    }
}

proof fn lemma_most_sensitive(s: Seq<StoredClaimView>)
    requires
        s.len() > 0,
    ensures
        most_sensitive(s) matches Some(m) && s.contains(m),
    decreases s.len(),
{
    let d = s.drop_last();
    assert(s[s.len() - 1] == s.last());
    if d.len() > 0 {
        lemma_most_sensitive(d);
        let m = most_sensitive(d)->0;
        let k = choose|k: int| 0 <= k < d.len() && d[k] == m;
        assert(s[k] == m);
    }
}

} // verus!
