//! The service graph: versioned contracts published under scoped keys, with
//! declared dependencies that never form a cycle.
use vstd::prelude::*;
use vstd::string::*;
use crate::graph;
use crate::ids::Id128;
use crate::order;
use crate::order::Keyed;
use crate::text;
use crate::value;
use crate::value::Value;

verus! {

broadcast use value::group_views;

/// A versioned service contract. Dependents name the exact version they need.
#[derive(Clone, Debug, PartialEq, Eq, Hash)]
pub struct ServiceContract {
    pub name: String,
    pub version: u32,
}

pub struct ContractView {
    pub name: Seq<char>,
    pub version: u32,
}

impl View for ServiceContract {
    type V = ContractView;

    open spec fn view(&self) -> ContractView {
        ContractView { name: self.name@, version: self.version }
    }
}

impl Value for ServiceContract {
    fn copy(&self) -> (r: Self) {
        ServiceContract { name: self.name.clone(), version: self.version }
    }

    fn same(&self, other: &Self) -> (r: bool) {
        self.version == other.version && self.name == other.name
    }
}

/// An ordered scope path; the root scope is the empty path.
#[derive(Clone, Debug, PartialEq, Eq, Hash)]
pub struct ScopePath(pub Vec<String>);

impl View for ScopePath {
    type V = Seq<Seq<char>>;

    open spec fn view(&self) -> Seq<Seq<char>> {
        value::views(self.0@)
    }
}

impl Value for ScopePath {
    fn copy(&self) -> (r: Self) {
        ScopePath(value::copy_vec(&self.0))
    }

    fn same(&self, other: &Self) -> (r: bool) {
        value::same_vec(&self.0, &other.0)
    }
}

/// `/` for the root scope, `/a/b` for the path of `a` and `b`.
pub open spec fn scope_text(path: Seq<Seq<char>>) -> Seq<char> {
    "/"@ + text::join_text(path, "/"@)
}

/// `scope` is `other` or one of its ancestors.
pub open spec fn encloses(scope: Seq<Seq<char>>, other: Seq<Seq<char>>) -> bool {
    scope.is_prefix_of(other)
}

impl ScopePath {
    /// The displayed path.
    pub fn text(&self) -> (r: String)
        ensures
            r@ == scope_text(self@),
    {
        let joined = text::join(&self.0, "/");
        text::cat2("/", joined.as_str())
    }

    /// Whether `self` equals `other` or is a prefix of it.
    pub fn is_same_or_ancestor_of(&self, other: &ScopePath) -> (r: bool)
        ensures
            r == encloses(self@, other@),
    {
        if self.0.len() > other.0.len() {
            return false;
        }
        let mut i: usize = 0;
        while i < self.0.len()
            invariant
                i <= self.0.len() <= other.0.len(),
                forall|j: int| 0 <= j < i ==> (#[trigger] self.0@[j])@ == other.0@[j]@,
            decreases self.0.len() - i,
        {
            if !self.0[i].same(&other.0[i]) {
                assert(self@[i as int] != other@.subrange(0, self@.len() as int)[i as int]);
                return false;
            }
            i = i + 1;
        }
        assert(self@ =~= other@.subrange(0, self@.len() as int));
        true
    }
}

/// A service key: a name within its owning scope.
#[derive(Clone, Debug, PartialEq, Eq, Hash)]
pub struct ServiceKey {
    pub scope: ScopePath,
    pub name: String,
}

pub struct KeyView {
    pub scope: Seq<Seq<char>>,
    pub name: Seq<char>,
}

impl View for ServiceKey {
    type V = KeyView;

    open spec fn view(&self) -> KeyView {
        KeyView { scope: self.scope@, name: self.name@ }
    }
}

impl Value for ServiceKey {
    fn copy(&self) -> (r: Self) {
        ServiceKey { scope: self.scope.copy(), name: self.name.clone() }
    }

    fn same(&self, other: &Self) -> (r: bool) {
        self.name == other.name && self.scope.same(&other.scope)
    }
}

/// The displayed key: the scope's path, a slash, and the name.
pub open spec fn key_text(key: KeyView) -> Seq<char> {
    scope_text(key.scope) + "/"@ + key.name
}

impl ServiceKey {
    /// The displayed key.
    pub fn text(&self) -> (r: String)
        ensures
            r@ == key_text(self@),
    {
        let scope = self.scope.text();
        text::cat3(scope.as_str(), "/", self.name.as_str())
    }
}

/// A dependent's declaration of a required service version.
#[derive(Clone, Debug, PartialEq, Eq, Hash)]
pub struct ServiceDependency {
    pub key: ServiceKey,
    pub required_version: u32,
}

pub struct DependencyView {
    pub key: KeyView,
    pub required_version: u32,
}

impl View for ServiceDependency {
    type V = DependencyView;

    open spec fn view(&self) -> DependencyView {
        DependencyView { key: self.key@, required_version: self.required_version }
    }
}

impl Value for ServiceDependency {
    fn copy(&self) -> (r: Self) {
        ServiceDependency { key: self.key.copy(), required_version: self.required_version }
    }

    fn same(&self, other: &Self) -> (r: bool) {
        self.required_version == other.required_version && self.key.same(&other.key)
    }
}

/// The module generation that provides a service contract.
#[derive(Clone, Debug, PartialEq, Eq, Hash)]
pub struct ServiceProvider {
    pub module_id: Id128,
    pub generation: u64,
    pub contract: ServiceContract,
}

pub struct ProviderView {
    pub module_id: Seq<char>,
    pub generation: u64,
    pub contract: ContractView,
}

impl View for ServiceProvider {
    type V = ProviderView;

    open spec fn view(&self) -> ProviderView {
        ProviderView {
            module_id: self.module_id@,
            generation: self.generation,
            contract: self.contract@,
        }
    }
}

impl Value for ServiceProvider {
    fn copy(&self) -> (r: Self) {
        ServiceProvider {
            module_id: self.module_id.copy(),
            generation: self.generation,
            contract: self.contract.copy(),
        }
    }

    fn same(&self, other: &Self) -> (r: bool) {
        self.generation == other.generation && self.module_id.same(&other.module_id)
            && self.contract.same(&other.contract)
    }
}

/// Explicit replace intent: `current` must name the registered holder by
/// module and generation.
#[derive(Clone, Debug, PartialEq, Eq)]
pub struct ReplaceIntent {
    pub current: ServiceProvider,
    pub proposed: ServiceProvider,
}

/// What the service graph refuses.
#[derive(Debug, Clone, PartialEq, Eq)]
pub enum ServiceError {
    Conflict { key: ServiceKey, holder: ServiceProvider, challenger: ServiceProvider },
    Unresolved { key: ServiceKey, required_version: u32 },
    ScopeViolation { key: ServiceKey, caller_scope: ScopePath, reason: String },
    DependencyCycle { path: Vec<String> },
    DependentsExist { key: ServiceKey, dependents: Vec<ServiceDependency> },
    NotOwner { key: ServiceKey, module_id: Id128 },
    VersionMismatch { key: ServiceKey, required_version: u32, actual_version: u32 },
    InvalidInput(String),
}

pub enum ServiceErrorView {
    Conflict { key: KeyView, holder: ProviderView, challenger: ProviderView },
    Unresolved { key: KeyView, required_version: u32 },
    ScopeViolation { key: KeyView, caller_scope: Seq<Seq<char>>, reason: Seq<char> },
    DependencyCycle { path: Seq<Seq<char>> },
    DependentsExist { key: KeyView, dependents: Seq<DependencyView> },
    NotOwner { key: KeyView, module_id: Seq<char> },
    VersionMismatch { key: KeyView, required_version: u32, actual_version: u32 },
    InvalidInput(Seq<char>),
}

impl View for ServiceError {
    type V = ServiceErrorView;

    open spec fn view(&self) -> ServiceErrorView {
        match *self {
            ServiceError::Conflict { key, holder, challenger } => ServiceErrorView::Conflict {
                key: key@,
                holder: holder@,
                challenger: challenger@,
            },
            ServiceError::Unresolved { key, required_version } => ServiceErrorView::Unresolved {
                key: key@,
                required_version,
            },
            ServiceError::ScopeViolation { key, caller_scope, reason } =>
                ServiceErrorView::ScopeViolation {
                key: key@,
                caller_scope: caller_scope@,
                reason: reason@,
            },
            ServiceError::DependencyCycle { path } => ServiceErrorView::DependencyCycle {
                path: value::views(path@),
            },
            ServiceError::DependentsExist { key, dependents } =>
                ServiceErrorView::DependentsExist {
                key: key@,
                dependents: value::views(dependents@),
            },
            ServiceError::NotOwner { key, module_id } => ServiceErrorView::NotOwner {
                key: key@,
                module_id: module_id@,
            },
            ServiceError::VersionMismatch { key, required_version, actual_version } =>
                ServiceErrorView::VersionMismatch { key: key@, required_version, actual_version },
            ServiceError::InvalidInput(reason) => ServiceErrorView::InvalidInput(reason@),
        }
    }
}

/// One publication: a key, its provider, and the provider's dependencies.
#[derive(Debug, Clone)]
struct ServiceEntry {
    key: ServiceKey,
    provider: ServiceProvider,
    deps: Vec<ServiceDependency>,
}

pub struct EntryView {
    pub key: KeyView,
    pub provider: ProviderView,
    pub deps: Seq<DependencyView>,
}

impl View for ServiceEntry {
    type V = EntryView;

    closed spec fn view(&self) -> EntryView {
        EntryView { key: self.key@, provider: self.provider@, deps: value::views(self.deps@) }
    }
}

/// The publications, in the order in which their keys were first taken.
pub struct ServiceRegistry {
    entries: Vec<ServiceEntry>,
}

impl View for ServiceRegistry {
    type V = Seq<EntryView>;

    closed spec fn view(&self) -> Seq<EntryView> {
        value::views(self.entries@)
    }
}

// ---------- lookups ----------

/// `key` is published.
pub open spec fn holds(s: Seq<EntryView>, key: KeyView) -> bool {
    exists|i: int| 0 <= i < s.len() && (#[trigger] s[i]).key == key
}

/// Where `key` is published.
pub open spec fn place_of(s: Seq<EntryView>, key: KeyView) -> int {
    choose|i: int| 0 <= i < s.len() && (#[trigger] s[i]).key == key
}

/// The holder of a published key.
pub open spec fn holder_of(s: Seq<EntryView>, key: KeyView) -> ProviderView {
    s[place_of(s, key)].provider
}

/// The declared dependencies of a key; none for one that is not published.
pub open spec fn deps_of(s: Seq<EntryView>, key: KeyView) -> Seq<DependencyView> {
    if holds(s, key) {
        s[place_of(s, key)].deps
    } else {
        Seq::empty()
    }
}

/// No key is published twice.
pub open spec fn unique_keys(s: Seq<EntryView>) -> bool {
    forall|i: int, j: int|
        0 <= i < s.len() && 0 <= j < s.len() && (#[trigger] s[i]).key == (#[trigger] s[j]).key
            ==> i == j
}

/// The publications without that of `key`.
pub open spec fn without(s: Seq<EntryView>, key: KeyView) -> Seq<EntryView> {
    if holds(s, key) {
        s.remove(place_of(s, key))
    } else {
        s
    }
}

proof fn lemma_place(s: Seq<EntryView>, i: int)
    requires
        unique_keys(s),
        0 <= i < s.len(),
    ensures
        holds(s, s[i].key),
        place_of(s, s[i].key) == i,
{
}

// ---------- the dependency graph ----------

/// A key with the keys it depends on.
pub struct NodeView {
    pub key: KeyView,
    pub needs: Seq<KeyView>,
}

pub open spec fn keys_of(deps: Seq<DependencyView>) -> Seq<KeyView> {
    deps.map_values(|d: DependencyView| d.key)
}

/// The graph of the publications.
pub open spec fn graph_of(s: Seq<EntryView>) -> Seq<NodeView> {
    s.map_values(|e: EntryView| NodeView { key: e.key, needs: keys_of(e.deps) })
}

/// The graph with further dependencies of `key`.
pub open spec fn graph_with(s: Seq<EntryView>, key: KeyView, deps: Seq<DependencyView>) -> Seq<
    NodeView,
> {
    if holds(s, key) {
        let i = place_of(s, key);
        graph_of(s).update(
            i,
            NodeView { key, needs: graph_of(s)[i].needs + keys_of(deps) },
        )
    } else {
        graph_of(s).push(NodeView { key, needs: keys_of(deps) })
    }
}

/// `u` depends on `v`.
pub open spec fn edge(g: Seq<NodeView>, u: KeyView, v: KeyView) -> bool {
    exists|i: int, j: int|
        0 <= i < g.len() && 0 <= j < g[i].needs.len() && g[i].key == u && #[trigger] g[i].needs[j]
            == v
}

/// A closed walk along dependencies, with its start repeated at the end.
pub open spec fn is_cycle(g: Seq<NodeView>, walk: Seq<KeyView>) -> bool {
    &&& walk.len() >= 2
    &&& walk.first() == walk.last()
    &&& forall|i: int| 0 <= i < walk.len() - 1 ==> edge(g, #[trigger] walk[i], walk[i + 1])
}

/// `rank` falls along every dependency.
pub open spec fn falls(g: Seq<NodeView>, rank: spec_fn(KeyView) -> int) -> bool {
    forall|i: int, j: int|
        0 <= i < g.len() && 0 <= j < g[i].needs.len() ==> rank(#[trigger] g[i].needs[j]) < rank(
            g[i].key,
        )
}

/// The node at `u` depends on the node at `v`.
pub open spec fn needs_steps(g: Seq<NodeView>) -> spec_fn(int, int) -> bool {
    |u: int, v: int| 0 <= u < g.len() && 0 <= v < g.len() && g[u].needs.contains(g[v].key)
}

/// `path` displays the first cycle of `g`, in the order that its nodes stand.
pub open spec fn shows_first(g: Seq<NodeView>, path: Seq<Seq<char>>) -> bool {
    exists|walk: Seq<int>|
        #[trigger] graph::first_loop(needs_steps(g), walk) && path == walk.map_values(
            |n: int| key_text(g[n].key),
        )
}

/// `path` is the cycle that is reported of `g`: the first one, its nodes taken
/// in the order of their displayed keys.
pub open spec fn reports(g: Seq<NodeView>, path: Seq<Seq<char>>) -> bool {
    shows_first(order::ordered(g, node_order()), path)
}

/// The keys can be ranked so that each outranks all it depends on.
pub open spec fn layered(g: Seq<NodeView>) -> bool {
    exists|rank: spec_fn(KeyView) -> int| falls(g, rank)
}

/// Along a walk the rank falls.
proof fn lemma_walk_falls(
    g: Seq<NodeView>,
    rank: spec_fn(KeyView) -> int,
    walk: Seq<KeyView>,
    n: int,
)
    requires
        falls(g, rank),
        0 <= n < walk.len(),
        forall|i: int| 0 <= i < walk.len() - 1 ==> edge(g, #[trigger] walk[i], walk[i + 1]),
    ensures
        rank(walk[n]) <= rank(walk[0]) - n,
    decreases n,
{
    if n > 0 {
        lemma_walk_falls(g, rank, walk, n - 1);
        assert(edge(g, walk[n - 1], walk[n - 1 + 1]));
    }
}

/// A layered graph has no dependency cycle.
pub proof fn lemma_layered_has_no_cycle(g: Seq<NodeView>, walk: Seq<KeyView>)
    requires
        layered(g),
    ensures
        !is_cycle(g, walk),
{
    if is_cycle(g, walk) {
        let rank = choose|rank: spec_fn(KeyView) -> int| falls(g, rank);
        lemma_walk_falls(g, rank, walk, walk.len() - 1);
    }
}


/// Graphs with the same nodes have the same edges and rankings.
proof fn lemma_same_nodes(g: Seq<NodeView>, h: Seq<NodeView>)
    requires
        forall|n: NodeView| g.contains(n) == h.contains(n),
    ensures
        forall|u: KeyView, v: KeyView| edge(g, u, v) ==> edge(h, u, v),
        forall|rank: spec_fn(KeyView) -> int| falls(h, rank) ==> falls(g, rank),
{
    assert forall|u: KeyView, v: KeyView| edge(g, u, v) implies edge(h, u, v) by {
        let (i, j) = choose|i: int, j: int|
            0 <= i < g.len() && 0 <= j < g[i].needs.len() && g[i].key == u
                && #[trigger] g[i].needs[j] == v;
        assert(g.contains(g[i]));
        let k = choose|k: int| 0 <= k < h.len() && h[k] == g[i];
        assert(h[k].needs[j] == v);
    }
    assert forall|rank: spec_fn(KeyView) -> int| falls(h, rank) implies falls(g, rank) by {
        assert forall|i: int, j: int| 0 <= i < g.len() && 0 <= j < g[i].needs.len() implies rank(
            #[trigger] g[i].needs[j],
        ) < rank(g[i].key) by {
            assert(g.contains(g[i]));
            let k = choose|k: int| 0 <= k < h.len() && h[k] == g[i];
            assert(rank(h[k].needs[j]) < rank(h[k].key));
        }
    }
}

/// A node of the search: a key and the keys it depends on.
struct Node {
    key: ServiceKey,
    needs: Vec<ServiceKey>,
}

impl View for Node {
    type V = NodeView;

    closed spec fn view(&self) -> NodeView {
        NodeView { key: self.key@, needs: value::views(self.needs@) }
    }
}

/// Nodes go by their displayed keys.
pub open spec fn node_order() -> spec_fn(NodeView) -> Seq<Seq<char>> {
    |n: NodeView| seq![key_text(n.key)]
}

/// The sort key of a displayed service key.
fn text_key(key: &ServiceKey) -> (r: Vec<String>)
    ensures
        value::views(r@) == seq![key_text(key@)],
{
    let mut r: Vec<String> = Vec::new();
    r.push(key.text());
    assert(value::views(r@) =~= seq![key_text(key@)]);
    r
}

fn push_keys(out: &mut Vec<ServiceKey>, deps: &[ServiceDependency])
    ensures
        value::views(final(out)@) == value::views(old(out)@) + keys_of(value::views(deps@)),
{
    let ghost start = value::views(out@);
    let ghost keys = keys_of(value::views(deps@));
    let mut i: usize = 0;
    assert(start + keys.take(0) =~= start);
    while i < deps.len()
        invariant
            i <= deps@.len(),
            keys == keys_of(value::views(deps@)),
            value::views(out@) == start + keys.take(i as int),
        decreases deps@.len() - i,
    {
        out.push(deps[i].key.copy());
        i = i + 1;
        assert(start + keys.take(i as int) =~= (start + keys.take(i - 1)).push(keys[i - 1]));
    }
    assert(keys.take(i as int) =~= keys);
}

/// The position of a node by its key.
fn node_at(nodes: &Vec<Node>, key: &ServiceKey) -> (r: Option<usize>)
    ensures
        match r {
            Some(v) => v < nodes.len() && nodes@[v as int]@.key == key@,
            None => forall|v: int| 0 <= v < nodes.len() ==> (#[trigger] nodes@[v])@.key != key@,
        },
{
    let mut i: usize = 0;
    while i < nodes.len()
        invariant
            i <= nodes.len(),
            forall|v: int| 0 <= v < i ==> (#[trigger] nodes@[v])@.key != key@,
        decreases nodes.len() - i,
    {
        if nodes[i].key.same(key) {
            return Some(i);
        }
        i = i + 1;
    }
    None
}

/// The numbers ascend.
spec fn climbs(s: Seq<usize>) -> bool {
    forall|a: int, b: int| 0 <= a < b < s.len() ==> #[trigger] s[a] <= #[trigger] s[b]
}

/// Puts `x` into an ascending list.
fn insert_ascending(v: &mut Vec<usize>, x: usize)
    requires
        climbs(old(v)@),
    ensures
        climbs(final(v)@),
        forall|y: usize| final(v)@.contains(y) <==> old(v)@.contains(y) || y == x,
{
    let ghost before = v@;
    let mut p: usize = 0;
    while p < v.len() && v[p] <= x
        invariant
            p <= v.len(),
            v@ == before,
            climbs(before),
            forall|k: int| 0 <= k < p ==> #[trigger] before[k] <= x,
        decreases v.len() - p,
    {
        p = p + 1;
    }
    v.insert(p, x);
    proof {
        let after = before.insert(p as int, x);
        assert forall|a: int, b: int| 0 <= a < b < after.len() implies #[trigger] after[a]
            <= #[trigger] after[b] by {
            if b > p && a <= p {
                assert(before[p as int] <= before[b - 1]);
            }
        }
        assert forall|y: usize| after.contains(y) <==> before.contains(y) || y == x by {
            if before.contains(y) {
                let k = choose|k: int| 0 <= k < before.len() && before[k] == y;
                if k < p {
                    assert(after[k] == y);
                } else {
                    assert(after[k + 1] == y);
                }
            }
            if y == x {
                assert(after[p as int] == x);
            }
            if after.contains(y) && y != x {
                let k = choose|k: int| 0 <= k < after.len() && after[k] == y;
                if k < p {
                    assert(before[k] == y);
                } else {
                    assert(before[k - 1] == y);
                }
            }
        }
    }
}

/// The successors of node `u` that are nodes themselves, ascending.
spec fn numbers(nodes: Seq<Node>, needs: Seq<KeyView>, succ: Seq<usize>) -> bool {
    &&& climbs(succ)
    &&& forall|j: int|
        0 <= j < succ.len() ==> (#[trigger] succ[j]) < nodes.len() && needs.contains(
            nodes[succ[j] as int]@.key,
        )
    &&& forall|k: int|
        0 <= k < needs.len() ==> (exists|v: usize|
            succ.contains(v) && v < nodes.len() && (#[trigger] nodes[v as int])@.key
                == #[trigger] needs[k]) || (forall|v: int|
            0 <= v < nodes.len() ==> (#[trigger] nodes[v])@.key != needs[k])
}

fn successors(nodes: &Vec<Node>, u: usize) -> (r: Vec<usize>)
    requires
        u < nodes.len(),
    ensures
        numbers(nodes@, nodes@[u as int]@.needs, r@),
{
    let ghost needs = nodes@[u as int]@.needs;
    let mut r: Vec<usize> = Vec::new();
    let mut k: usize = 0;
    while k < nodes[u].needs.len()
        invariant
            u < nodes.len(),
            needs == nodes@[u as int]@.needs,
            k <= needs.len(),
            needs.len() == nodes@[u as int].needs@.len(),
            climbs(r@),
            forall|j: int|
                0 <= j < r.len() ==> (#[trigger] r@[j]) < nodes.len() && needs.contains(
                    nodes@[r@[j] as int]@.key,
                ),
            forall|i: int|
                0 <= i < k ==> (exists|v: usize|
                    r@.contains(v) && v < nodes.len() && (#[trigger] nodes@[v as int])@.key
                        == #[trigger] needs[i]) || (forall|v: int|
                    0 <= v < nodes.len() ==> (#[trigger] nodes@[v])@.key != needs[i]),
        decreases needs.len() - k,
    {
        let ghost r0 = r@;
        assert(needs[k as int] == nodes@[u as int].needs@[k as int]@);
        match node_at(nodes, &nodes[u].needs[k]) {
            Some(v) => {
                insert_ascending(&mut r, v);
                proof {
                    assert forall|j: int| 0 <= j < r.len() implies (#[trigger] r@[j]) < nodes.len()
                        && needs.contains(nodes@[r@[j] as int]@.key) by {
                        assert(r@.contains(r@[j]));
                        if r0.contains(r@[j]) {
                            let q = choose|q: int| 0 <= q < r0.len() && r0[q] == r@[j];
                            assert(r0[q] < nodes.len());
                        } else {
                            assert(needs[k as int] == nodes@[v as int]@.key);
                        }
                    }
                    assert(r@.contains(v));
                    assert forall|i: int| 0 <= i < k + 1 implies (exists|w: usize|
                        r@.contains(w) && w < nodes.len() && (#[trigger] nodes@[w as int])@.key
                            == #[trigger] needs[i]) || (forall|w: int|
                        0 <= w < nodes.len() ==> (#[trigger] nodes@[w])@.key != needs[i]) by {
                        if i < k {
                            if exists|w: usize|
                                r0.contains(w) && w < nodes.len() && (#[trigger] nodes@[w as int])@.key
                                    == needs[i] {
                                let w = choose|w: usize|
                                    r0.contains(w) && w < nodes.len() && (#[trigger] nodes@[w
                                        as int])@.key == needs[i];
                                assert(r@.contains(w));
                            }
                        } else {
                            assert(r@.contains(v) && nodes@[v as int]@.key == needs[i]);
                        }
                    }
                }
            },
            None => {},
        }
        k = k + 1;
    }
    r
}

/// Numbers of nodes are those of a graph's steps.
proof fn lemma_steps(nodes: Seq<Node>, adj: Seq<Vec<usize>>)
    requires
        adj.len() == nodes.len(),
        nodes.len() <= usize::MAX,
        forall|w: int|
            0 <= w < nodes.len() ==> numbers(nodes, nodes[w]@.needs, (#[trigger] adj[w])@),
        forall|i: int, j: int|
            0 <= i < nodes.len() && 0 <= j < nodes.len() && (#[trigger] nodes[i])@.key == (
            #[trigger] nodes[j])@.key ==> i == j,
    ensures
        graph::steps_of(adj) == needs_steps(value::views(nodes)),
{
    let g = value::views(nodes);
    assert forall|u: int, v: int|
        #[trigger] graph::steps_of(adj)(u, v) == needs_steps(g)(u, v) by {
        if 0 <= u < adj.len() {
            assert(numbers(nodes, nodes[u]@.needs, adj[u]@));
            assert(g[u] == nodes[u]@);
            if graph::leads(adj, u, v) {
                let j = choose|j: int| 0 <= j < adj[u]@.len() && #[trigger] adj[u]@[j] == v;
                assert(nodes[u]@.needs.contains(nodes[adj[u]@[j] as int]@.key));
                assert(g[v] == nodes[v]@);
            }
            if 0 <= v < g.len() && g[u].needs.contains(g[v].key) {
                assert(g[v] == nodes[v]@);
                let k = choose|k: int| 0 <= k < g[u].needs.len() && g[u].needs[k] == g[v].key;
                let w = choose|w: usize|
                    adj[u]@.contains(w) && w < nodes.len() && (#[trigger] nodes[w as int])@.key
                        == nodes[u]@.needs[k];
                assert(w == v);
                let q = choose|q: int| 0 <= q < adj[u]@.len() && adj[u]@[q] == w;
                assert(adj[u]@[q] == v);
            }
        }
    }
    assert(graph::steps_of(adj) =~= needs_steps(g));
}

/// The first dependency cycle among nodes with distinct keys, or none when the
/// graph is layered.
fn search_cycle(nodes: &Vec<Node>) -> (r: Option<Vec<String>>)
    requires
        forall|i: int, j: int|
            0 <= i < nodes.len() && 0 <= j < nodes.len() && (#[trigger] nodes@[i])@.key
                == (#[trigger] nodes@[j])@.key ==> i == j,
    ensures
        match r {
            Some(path) => shows_first(value::views(nodes@), value::views(path@)),
            None => layered(value::views(nodes@)),
        },
{
    let ghost g = value::views(nodes@);
    let mut adj: Vec<Vec<usize>> = Vec::new();
    let mut u: usize = 0;
    while u < nodes.len()
        invariant
            u <= nodes.len(),
            adj.len() == u,
            forall|w: int|
                0 <= w < u ==> numbers(nodes@, nodes@[w]@.needs, (#[trigger] adj@[w])@),
        decreases nodes.len() - u,
    {
        let next = successors(nodes, u);
        adj.push(next);
        u = u + 1;
    }
    proof {
        assert forall|w: int, j: int| 0 <= w < adj.len() && 0 <= j < adj@[w]@.len() implies
            #[trigger] adj@[w]@[j] < adj.len() by {
            assert(numbers(nodes@, nodes@[w]@.needs, adj@[w]@));
        }
        assert forall|w: int, a: int, b: int|
            0 <= w < adj.len() && 0 <= a < b < adj@[w]@.len() implies #[trigger] adj@[w]@[a]
            <= #[trigger] adj@[w]@[b] by {
            assert(numbers(nodes@, nodes@[w]@.needs, adj@[w]@));
        }
        lemma_steps(nodes@, adj@);
    }
    match graph::find_cycle(&adj) {
        Some(loop_nodes) => {
            let mut path: Vec<String> = Vec::new();
            let mut i: usize = 0;
            while i < loop_nodes.len()
                invariant
                    i <= loop_nodes.len(),
                    path.len() == i,
                    adj.len() == nodes.len(),
                    graph::is_loop(adj@, loop_nodes@),
                    forall|k: int|
                        0 <= k < i ==> (#[trigger] path@[k])@ == key_text(
                            nodes@[loop_nodes@[k] as int]@.key,
                        ),
                decreases loop_nodes.len() - i,
            {
                assert(loop_nodes@[i as int] < adj.len());
                path.push(nodes[loop_nodes[i]].key.text());
                i = i + 1;
            }
            proof {
                let walk = graph::ints(loop_nodes@);
                assert(value::views(path@) =~= walk.map_values(
                    |n: int| key_text(value::views(nodes@)[n].key),
                ));
                assert(graph::first_loop(needs_steps(value::views(nodes@)), walk));
            }
            Some(path)
        },
        None => {
            proof {
                let rank = choose|rank: spec_fn(int) -> int| graph::descends(adj@, rank);
                let low = lowest(nodes@.len() as int, rank);
                let key_rank = |k: KeyView|
                    if exists|i: int| 0 <= i < g.len() && (#[trigger] g[i]).key == k {
                        rank(choose|i: int| 0 <= i < g.len() && (#[trigger] g[i]).key == k)
                    } else {
                        low
                    };
                lemma_lowest(nodes@.len() as int, rank);
                assert forall|i: int, j: int|
                    0 <= i < g.len() && 0 <= j < g[i].needs.len() implies key_rank(
                    #[trigger] g[i].needs[j],
                ) < key_rank(g[i].key) by {
                    assert(g[i] == nodes@[i]@);
                    let a = choose|a: int| 0 <= a < g.len() && (#[trigger] g[a]).key == g[i].key;
                    assert(nodes@[a]@.key == nodes@[i]@.key);
                    assert(a == i);
                    assert(numbers(nodes@, nodes@[i]@.needs, adj@[i]@));
                    let k = nodes@[i]@.needs[j];
                    if exists|b: int| 0 <= b < g.len() && (#[trigger] g[b]).key == k {
                        let b = choose|b: int| 0 <= b < g.len() && (#[trigger] g[b]).key == k;
                        assert(nodes@[b]@.key == k);
                        let v = choose|v: usize|
                            adj@[i]@.contains(v) && v < nodes.len() && (#[trigger] nodes@[v
                                as int])@.key == k;
                        assert(v == b);
                        let q = choose|q: int| 0 <= q < adj@[i]@.len() && adj@[i]@[q] == v;
                        assert(rank(adj@[i]@[q] as int) < rank(i));
                    }
                }
                assert(falls(g, key_rank));
            }
            None
        },
    }
}

/// A number below all of `rank(0..n)`.
spec fn lowest(n: int, rank: spec_fn(int) -> int) -> int
    decreases n,
{
    if n <= 0 {
        0
    } else {
        let rest = lowest(n - 1, rank);
        if rank(n - 1) <= rest {
            rank(n - 1) - 1
        } else {
            rest
        }
    }
}

proof fn lemma_lowest(n: int, rank: spec_fn(int) -> int)
    ensures
        forall|i: int| 0 <= i < n ==> lowest(n, rank) < #[trigger] rank(i),
    decreases n,
{
    if n > 0 {
        lemma_lowest(n - 1, rank);
    }
}

// ---------- the registry ----------

/// The publication depends on its own scope and the scopes above it only.
pub open spec fn upward(e: EntryView) -> bool {
    forall|k: int|
        0 <= k < e.deps.len() ==> encloses((#[trigger] e.deps[k]).key.scope, e.key.scope)
}

/// No key twice, no dependency cycle, and no dependency that points down or
/// sideways in the scopes.
pub open spec fn well_formed(s: Seq<EntryView>) -> bool {
    &&& unique_keys(s)
    &&& layered(graph_of(s))
    &&& forall|i: int| 0 <= i < s.len() ==> upward(#[trigger] s[i])
}

/// Why a provider cannot stand under a key by its name.
pub open spec fn name_error(key: KeyView, provider: ProviderView) -> Option<ServiceErrorView> {
    if key.name != provider.contract.name {
        Some(
            ServiceErrorView::InvalidInput(
                "contract name `"@ + provider.contract.name + "` does not match key name `"@
                    + key.name + "`"@,
            ),
        )
    } else {
        None
    }
}

/// Why `publish` refuses.
pub open spec fn publish_error(
    s: Seq<EntryView>,
    key: KeyView,
    provider: ProviderView,
) -> Option<ServiceErrorView> {
    if name_error(key, provider) is Some {
        name_error(key, provider)
    } else if holds(s, key) {
        Some(
            ServiceErrorView::Conflict { key, holder: holder_of(s, key), challenger: provider },
        )
    } else {
        None
    }
}

/// Why `replace_publish` refuses.
pub open spec fn replace_error(
    s: Seq<EntryView>,
    key: KeyView,
    provider: ProviderView,
    current: ProviderView,
    proposed: ProviderView,
) -> Option<ServiceErrorView> {
    if name_error(key, provider) is Some {
        name_error(key, provider)
    } else if proposed != provider {
        Some(
            ServiceErrorView::InvalidInput(
                "replace intent's proposed provider differs from the published provider"@,
            ),
        )
    } else if !holds(s, key) {
        Some(
            ServiceErrorView::InvalidInput(
                "replace intent for `"@ + key_text(key) + "`: no current holder"@,
            ),
        )
    } else if holder_of(s, key).module_id != current.module_id || holder_of(s, key).generation
        != current.generation {
        Some(
            ServiceErrorView::Conflict { key, holder: holder_of(s, key), challenger: provider },
        )
    } else {
        None
    }
}

/// The publications after `key` went to a new provider; its dependencies stay.
pub open spec fn replaced(s: Seq<EntryView>, key: KeyView, provider: ProviderView) -> Seq<
    EntryView,
> {
    let i = place_of(s, key);
    s.update(i, EntryView { key, provider, deps: s[i].deps })
}

/// Why `resolve` refuses.
pub open spec fn resolve_error(
    s: Seq<EntryView>,
    key: KeyView,
    required_version: u32,
    caller_scope: Seq<Seq<char>>,
) -> Option<ServiceErrorView> {
    if !encloses(key.scope, caller_scope) {
        Some(
            ServiceErrorView::ScopeViolation {
                key,
                caller_scope,
                reason: "service scope `"@ + scope_text(key.scope)
                    + "` is neither the caller scope `"@ + scope_text(caller_scope)
                    + "` nor an ancestor of it"@,
            },
        )
    } else if !holds(s, key) {
        Some(ServiceErrorView::Unresolved { key, required_version })
    } else if holder_of(s, key).contract.version != required_version {
        Some(
            ServiceErrorView::VersionMismatch {
                key,
                required_version,
                actual_version: holder_of(s, key).contract.version,
            },
        )
    } else {
        None
    }
}

/// The declarations in `deps` that name `key`, as edges of `dependent`.
pub open spec fn edges_to(
    dependent: KeyView,
    deps: Seq<DependencyView>,
    key: KeyView,
) -> Seq<DependencyView>
    decreases deps.len(),
{
    if deps.len() == 0 {
        Seq::empty()
    } else {
        let rest = edges_to(dependent, deps.drop_last(), key);
        if deps.last().key == key {
            rest.push(
                DependencyView { key: dependent, required_version: deps.last().required_version },
            )
        } else {
            rest
        }
    }
}

/// Every declaration that names `key`, with the key that declares it.
pub open spec fn dependent_edges(s: Seq<EntryView>, key: KeyView) -> Seq<DependencyView>
    decreases s.len(),
{
    if s.len() == 0 {
        Seq::empty()
    } else {
        dependent_edges(s.drop_last(), key) + edges_to(s.last().key, s.last().deps, key)
    }
}

pub open spec fn dependency_order() -> spec_fn(DependencyView) -> Seq<Seq<char>> {
    |d: DependencyView| seq![key_text(d.key)]
}

/// The dependents of `key` in the order of their displayed keys.
pub open spec fn dependents(s: Seq<EntryView>, key: KeyView) -> Seq<DependencyView> {
    order::ordered(dependent_edges(s, key), dependency_order())
}

/// The refusal of the first dependency outside `scope` and its ancestors.
pub open spec fn reach_error(
    deps: Seq<DependencyView>,
    scope: Seq<Seq<char>>,
) -> Option<ServiceErrorView>
    decreases deps.len(),
{
    if deps.len() == 0 {
        None
    } else if reach_error(deps.drop_last(), scope) is Some {
        reach_error(deps.drop_last(), scope)
    } else if !encloses(deps.last().key.scope, scope) {
        Some(
            ServiceErrorView::ScopeViolation {
                key: deps.last().key,
                caller_scope: scope,
                reason: "dependency scope `"@ + scope_text(deps.last().key.scope)
                    + "` is neither the dependent scope `"@ + scope_text(scope)
                    + "` nor an ancestor of it"@,
            },
        )
    } else {
        None
    }
}

/// Dependencies are in reach exactly when each points to the scope or to one
/// above it.
pub proof fn lemma_reach(deps: Seq<DependencyView>, scope: Seq<Seq<char>>)
    ensures
        reach_error(deps, scope) is None <==> forall|i: int|
            0 <= i < deps.len() ==> encloses((#[trigger] deps[i]).key.scope, scope),
    decreases deps.len(),
{
    if deps.len() > 0 {
        lemma_reach(deps.drop_last(), scope);
        if forall|i: int|
            0 <= i < deps.len() ==> encloses((#[trigger] deps[i]).key.scope, scope) {
            assert forall|i: int| 0 <= i < deps.len() - 1 implies encloses(
                (#[trigger] deps.drop_last()[i]).key.scope,
                scope,
            ) by {
                assert(deps[i] == deps.drop_last()[i]);
            }
        }
        if reach_error(deps, scope) is None {
            assert forall|i: int| 0 <= i < deps.len() implies encloses(
                (#[trigger] deps[i]).key.scope,
                scope,
            ) by {
                if i < deps.len() - 1 {
                    assert(deps.drop_last()[i] == deps[i]);
                }
            }
        }
    }
}

/// `path` displays a cycle of `g`.
pub open spec fn shows_cycle(g: Seq<NodeView>, path: Seq<Seq<char>>) -> bool {
    exists|walk: Seq<KeyView>|
        #[trigger] is_cycle(g, walk) && path == walk.map_values(|k: KeyView| key_text(k))
}

/// What is reported is a cycle.
pub proof fn lemma_reported_is_a_cycle(g: Seq<NodeView>, path: Seq<Seq<char>>)
    requires
        reports(g, path),
    ensures
        shows_cycle(g, path),
{
    let sorted = order::ordered(g, node_order());
    let step = needs_steps(sorted);
    let walk = choose|walk: Seq<int>|
        #[trigger] graph::first_loop(step, walk) && path == walk.map_values(
            |n: int| key_text(sorted[n].key),
        );
    let (t, i) = choose|t: Seq<int>, i: int| #[trigger] graph::lasso(step, t, i) && walk == t.skip(i);
    let keys = walk.map_values(|n: int| sorted[n].key);
    order::lemma_ordered(g, node_order());
    assert forall|n: NodeView| sorted.contains(n) == g.contains(n) by {
        order::lemma_ordered_contains(g, node_order(), n);
    }
    lemma_same_nodes(sorted, g);
    assert forall|k: int| 0 <= k < keys.len() - 1 implies edge(
        g,
        #[trigger] keys[k],
        keys[k + 1],
    ) by {
        assert(graph::turning(step, t, i + k));
        let u = walk[k];
        let v = walk[k + 1];
        assert(t[i + k] == u && t[i + k + 1] == v);
        assert(step(u, v));
        let m = choose|m: int| 0 <= m < sorted[u].needs.len() && sorted[u].needs[m]
            == sorted[v].key;
        assert(sorted[u].needs[m] == keys[k + 1]);
        assert(edge(sorted, keys[k], keys[k + 1]));
    }
    assert(walk.first() == t[i] && walk.last() == t.last());
    assert(is_cycle(g, keys));
    assert(path =~= keys.map_values(|k: KeyView| key_text(k)));
}

/// What the dependency check answers: a refusal of the first dependency out
/// of reach, else the first cycle of the extended graph, else nothing.
pub open spec fn checks(
    s: Seq<EntryView>,
    deps: Seq<DependencyView>,
    key: KeyView,
    answer: Option<ServiceErrorView>,
) -> bool {
    if reach_error(deps, key.scope) is Some {
        answer == reach_error(deps, key.scope)
    } else {
        match answer {
            None => layered(graph_with(s, key, deps)),
            Some(e) => e matches ServiceErrorView::DependencyCycle { path } && reports(
                graph_with(s, key, deps),
                path,
            ),
        }
    }
}

/// Why `remove` refuses.
pub open spec fn remove_error(
    s: Seq<EntryView>,
    key: KeyView,
    module_id: Seq<char>,
) -> Option<ServiceErrorView> {
    if !holds(s, key) {
        Some(
            ServiceErrorView::InvalidInput(
                "service `"@ + key_text(key) + "` is not published"@,
            ),
        )
    } else if holder_of(s, key).module_id != module_id {
        Some(ServiceErrorView::NotOwner { key, module_id })
    } else if dependents(s, key).len() > 0 {
        Some(ServiceErrorView::DependentsExist { key, dependents: dependents(s, key) })
    } else {
        None
    }
}

pub open spec fn entry_order() -> spec_fn(EntryView) -> Seq<Seq<char>> {
    |e: EntryView| seq![key_text(e.key)]
}

/// A publication as the snapshot gives it.
#[derive(Debug, Clone, PartialEq, Eq)]
pub struct Publication {
    pub key: ServiceKey,
    pub provider: ServiceProvider,
    pub deps: Vec<ServiceDependency>,
}

impl View for Publication {
    type V = EntryView;

    open spec fn view(&self) -> EntryView {
        EntryView { key: self.key@, provider: self.provider@, deps: value::views(self.deps@) }
    }
}

/// Every published key stays out of the graph's way when one is added that
/// depends on nothing.
proof fn lemma_push_leaf(s: Seq<EntryView>, e: EntryView)
    requires
        layered(graph_of(s)),
        e.deps.len() == 0,
    ensures
        layered(graph_of(s.push(e))),
{
    let g = graph_of(s);
    let h = graph_of(s.push(e));
    let rank = choose|rank: spec_fn(KeyView) -> int| falls(g, rank);
    assert forall|i: int, j: int| 0 <= i < h.len() && 0 <= j < h[i].needs.len() implies rank(
        #[trigger] h[i].needs[j],
    ) < rank(h[i].key) by {
        assert(h[i] == g[i]);
    }
    assert(falls(h, rank));
}

/// Taking a publication away keeps the graph layered.
proof fn lemma_remove_layered(s: Seq<EntryView>, p: int)
    requires
        well_formed(s),
        0 <= p < s.len(),
    ensures
        well_formed(s.remove(p)),
{
    let g = graph_of(s);
    let h = graph_of(s.remove(p));
    let rank = choose|rank: spec_fn(KeyView) -> int| falls(g, rank);
    assert forall|i: int, j: int| 0 <= i < h.len() && 0 <= j < h[i].needs.len() implies rank(
        #[trigger] h[i].needs[j],
    ) < rank(h[i].key) by {
        let k = if i < p { i } else { i + 1 };
        assert(h[i] == g[k]);
        assert(g[k].needs[j] == h[i].needs[j]);
    }
    assert(falls(h, rank));
    assert forall|i: int| 0 <= i < s.remove(p).len() implies upward(#[trigger] s.remove(p)[i]) by {
        let k = if i < p { i } else { i + 1 };
        assert(s.remove(p)[i] == s[k]);
    }
}

impl ServiceRegistry {
    /// What every operation keeps.
    pub open spec fn wf(&self) -> bool {
        well_formed(self@)
    }

    /// A registry with nothing published.
    pub fn new() -> (r: Self)
        ensures
            r.wf(),
            r@ == Seq::<EntryView>::empty(),
    {
        let r = ServiceRegistry { entries: Vec::new() };
        proof {
            assert(r@ =~= Seq::<EntryView>::empty());
            let rank = |k: KeyView| 0int;
            assert(falls(graph_of(r@), rank));
        }
        r
    }

    fn position(&self, key: &ServiceKey) -> (r: Option<usize>)
        ensures
            match r {
                Some(i) => i < self.entries.len() && self@[i as int].key == key@ && holds(
                    self@,
                    key@,
                ) && (unique_keys(self@) ==> place_of(self@, key@) == i),
                None => !holds(self@, key@),
            },
    {
        let mut i: usize = 0;
        while i < self.entries.len()
            invariant
                i <= self.entries.len(),
                forall|j: int| 0 <= j < i ==> (#[trigger] self@[j]).key != key@,
            decreases self.entries.len() - i,
        {
            assert(self@[i as int] == self.entries@[i as int]@);
            if self.entries[i].key.same(key) {
                return Some(i);
            }
            i = i + 1;
        }
        None
    }

    fn validate_key_contract(key: &ServiceKey, provider: &ServiceProvider) -> (r: Result<
        (),
        ServiceError,
    >)
        ensures
            value::failure(r) == name_error(key@, provider@),
    {
        if !key.name.same(&provider.contract.name) {
            return Err(
                ServiceError::InvalidInput(
                    text::cat5(
                        "contract name `",
                        provider.contract.name.as_str(),
                        "` does not match key name `",
                        key.name.as_str(),
                        "`",
                    ),
                ),
            );
        }
        Ok(())
    }

    /// Publishes `provider` under a free key, with no dependencies.
    pub fn publish(&mut self, key: ServiceKey, provider: ServiceProvider) -> (r: Result<
        (),
        ServiceError,
    >)
        requires
            old(self).wf(),
        ensures
            final(self).wf(),
            value::failure(r) == publish_error(old(self)@, key@, provider@),
            final(self)@ == if r is Ok {
                old(self)@.push(
                    EntryView { key: key@, provider: provider@, deps: Seq::empty() },
                )
            } else {
                old(self)@
            },
    {
        match Self::validate_key_contract(&key, &provider) {
            Err(e) => {
                return Err(e);
            },
            Ok(_) => {},
        }
        match self.position(&key) {
            Some(i) => {
                let holder = self.entries[i].provider.copy();
                return Err(ServiceError::Conflict { key, holder, challenger: provider });
            },
            None => {},
        }
        let deps: Vec<ServiceDependency> = Vec::new();
        let entry = ServiceEntry { key, provider, deps };
        let ghost e = entry@;
        self.entries.push(entry);
        proof {
            assert(e.deps =~= Seq::<DependencyView>::empty());
            assert(self@ =~= old(self)@.push(e));
            lemma_push_leaf(old(self)@, e);
        }
        Ok(())
    }

    /// Hands `key` over to `provider`. The intent must name the current
    /// holder by module and generation; the key's dependencies stay.
    pub fn replace_publish(
        &mut self,
        key: ServiceKey,
        provider: ServiceProvider,
        replace_intent: &ReplaceIntent,
    ) -> (r: Result<(), ServiceError>)
        requires
            old(self).wf(),
        ensures
            final(self).wf(),
            value::failure(r) == replace_error(
                old(self)@,
                key@,
                provider@,
                replace_intent.current@,
                replace_intent.proposed@,
            ),
            final(self)@ == if r is Ok {
                replaced(old(self)@, key@, provider@)
            } else {
                old(self)@
            },
    {
        match Self::validate_key_contract(&key, &provider) {
            Err(e) => {
                return Err(e);
            },
            Ok(_) => {},
        }
        if !replace_intent.proposed.same(&provider) {
            return Err(
                ServiceError::InvalidInput(
                    "replace intent's proposed provider differs from the published provider".to_owned(),
                ),
            );
        }
        let i: usize = match self.position(&key) {
            Some(i) => i,
            None => {
                let shown = key.text();
                return Err(
                    ServiceError::InvalidInput(
                        text::cat3("replace intent for `", shown.as_str(), "`: no current holder"),
                    ),
                );
            },
        };
        if !self.entries[i].provider.module_id.same(&replace_intent.current.module_id)
            || self.entries[i].provider.generation != replace_intent.current.generation {
            let holder = self.entries[i].provider.copy();
            return Err(ServiceError::Conflict { key, holder, challenger: provider });
        }
        let deps = value::copy_vec(&self.entries[i].deps);
        let entry = ServiceEntry { key, provider, deps };
        let ghost e = entry@;
        self.entries.set(i, entry);
        proof {
            assert(self@ =~= replaced(old(self)@, key@, provider@));
            assert(graph_of(self@) =~= graph_of(old(self)@));
        }
        Ok(())
    }

    /// Resolves `key` for a caller in `caller_scope`, which must be the
    /// service's scope or a descendant of it; the version must match exactly.
    pub fn resolve(
        &self,
        key: &ServiceKey,
        required_version: u32,
        caller_scope: &ScopePath,
    ) -> (r: Result<&ServiceProvider, ServiceError>)
        requires
            self.wf(),
        ensures
            value::failure(r) == resolve_error(self@, key@, required_version, caller_scope@),
            r matches Ok(p) ==> p@ == holder_of(self@, key@),
    {
        if !key.scope.is_same_or_ancestor_of(caller_scope) {
            let service = key.scope.text();
            let caller = caller_scope.text();
            return Err(
                ServiceError::ScopeViolation {
                    key: key.copy(),
                    caller_scope: caller_scope.copy(),
                    reason: text::cat5(
                        "service scope `",
                        service.as_str(),
                        "` is neither the caller scope `",
                        caller.as_str(),
                        "` nor an ancestor of it",
                    ),
                },
            );
        }
        match self.position(key) {
            None => Err(ServiceError::Unresolved { key: key.copy(), required_version }),
            Some(i) => {
                let holder = &self.entries[i].provider;
                if holder.contract.version != required_version {
                    return Err(
                        ServiceError::VersionMismatch {
                            key: key.copy(),
                            required_version,
                            actual_version: holder.contract.version,
                        },
                    );
                }
                Ok(holder)
            },
        }
    }

    /// Every dependent of `key` with the version it requires, in the order of
    /// the dependents' displayed keys.
    pub fn dependents_of(&self, key: &ServiceKey) -> (r: Vec<ServiceDependency>)
        ensures
            value::views(r@) == dependents(self@, key@),
    {
        let mut out: Vec<Keyed<ServiceDependency>> = Vec::new();
        let mut i: usize = 0;
        assert(self@.take(0) =~= Seq::empty());
        assert(order::item_views(out@) =~= Seq::empty());
        while i < self.entries.len()
            invariant
                i <= self.entries.len(),
                order::item_views(out@) == dependent_edges(self@.take(i as int), key@),
                forall|k: int|
                    0 <= k < out.len() ==> value::views((#[trigger] out@[k]).key@)
                        == dependency_order()(out@[k].item@),
            decreases self.entries.len() - i,
        {
            let ghost base = order::item_views(out@);
            let ghost e = self@[i as int];
            proof {
                assert(e == self.entries@[i as int]@);
                assert(self@.take(i + 1).drop_last() =~= self@.take(i as int));
                assert(e.deps.take(0) =~= Seq::empty());
                assert(base =~= base + edges_to(e.key, e.deps.take(0), key@));
            }
            let mut j: usize = 0;
            while j < self.entries[i].deps.len()
                invariant
                    i < self.entries.len(),
                    e == self.entries@[i as int]@,
                    j <= e.deps.len(),
                    e.deps.len() == self.entries@[i as int].deps@.len(),
                    order::item_views(out@) == base + edges_to(
                        e.key,
                        e.deps.take(j as int),
                        key@,
                    ),
                    forall|k: int|
                        0 <= k < out.len() ==> value::views((#[trigger] out@[k]).key@)
                            == dependency_order()(out@[k].item@),
                decreases e.deps.len() - j,
            {
                let d = &self.entries[i].deps[j];
                let ghost before = order::item_views(out@);
                proof {
                    assert(e.deps[j as int] == d@);
                    assert(e.deps.take(j + 1).drop_last() =~= e.deps.take(j as int));
                }
                if d.key.same(key) {
                    let item = ServiceDependency {
                        key: self.entries[i].key.copy(),
                        required_version: d.required_version,
                    };
                    let sort = text_key(&item.key);
                    let ghost shown = item@;
                    out.push(Keyed { key: sort, item });
                    proof {
                        assert(order::item_views(out@) =~= before.push(shown));
                        assert(before.push(shown) =~= base + edges_to(
                            e.key,
                            e.deps.take(j + 1),
                            key@,
                        ));
                    }
                }
                j = j + 1;
            }
            assert(e.deps.take(j as int) =~= e.deps);
            i = i + 1;
        }
        assert(self@.take(i as int) =~= self@);
        order::order_items(out, Ghost(dependency_order()))
    }

    /// Rejects dependencies that point outside `scope` and its ancestors, and
    /// any cycle that they would close in the graph of all publications. The
    /// dependent is the key of the provider's contract name in `scope`.
    pub fn check_dependency_cycle(
        &self,
        new_deps: &[ServiceDependency],
        provider: &ServiceProvider,
        scope: &ScopePath,
    ) -> (r: Result<(), ServiceError>)
        requires
            self.wf(),
        ensures
            checks(
                self@,
                value::views(new_deps@),
                KeyView { scope: scope@, name: provider@.contract.name },
                value::failure(r),
            ),
    {
        let ghost deps = value::views(new_deps@);
        let mut i: usize = 0;
        assert(deps.take(0) =~= Seq::empty());
        while i < new_deps.len()
            invariant
                deps == value::views(new_deps@),
                i <= new_deps@.len(),
                reach_error(deps.take(i as int), scope@) is None,
            decreases new_deps@.len() - i,
        {
            let dep = &new_deps[i];
            proof {
                assert(deps.take(i + 1).drop_last() =~= deps.take(i as int));
                assert(deps.take(i + 1).last() == dep@);
            }
            if !dep.key.scope.is_same_or_ancestor_of(scope) {
                let named = dep.key.scope.text();
                let own = scope.text();
                proof {
                    lemma_reach_error_stays(deps, scope@, i + 1);
                }
                return Err(
                    ServiceError::ScopeViolation {
                        key: dep.key.copy(),
                        caller_scope: scope.copy(),
                        reason: text::cat5(
                            "dependency scope `",
                            named.as_str(),
                            "` is neither the dependent scope `",
                            own.as_str(),
                            "` nor an ancestor of it",
                        ),
                    },
                );
            }
            i = i + 1;
        }
        assert(deps.take(i as int) =~= deps);
        let new_key = ServiceKey { scope: scope.copy(), name: provider.contract.name.clone() };
        let nodes = self.nodes_with(&new_key, new_deps);
        let ghost g = graph_with(self@, new_key@, deps);
        proof {
            lemma_graph_with_distinct(self@, new_key@, deps);
            order::lemma_ordered_distinct(g, node_order(), |n: NodeView| n.key);
            order::lemma_ordered(g, node_order());
            let sorted = value::views(nodes@);
            assert forall|a: int, b: int|
                0 <= a < nodes.len() && 0 <= b < nodes.len() && (#[trigger] nodes@[a])@.key
                    == (#[trigger] nodes@[b])@.key implies a == b by {
                assert(sorted[a] == nodes@[a]@ && sorted[b] == nodes@[b]@);
            }
            assert forall|n: NodeView| g.contains(n) == sorted.contains(n) by {
                order::lemma_ordered_contains(g, node_order(), n);
            }
            lemma_same_nodes(g, sorted);
            lemma_same_nodes(sorted, g);
        }
        match search_cycle(&nodes) {
            Some(path) => {
                assert(reports(g, value::views(path@)));
                Err(ServiceError::DependencyCycle { path })
            },
            None => {
                proof {
                    let sorted = value::views(nodes@);
                    let rank = choose|rank: spec_fn(KeyView) -> int| falls(sorted, rank);
                    assert(falls(g, rank));
                }
                Ok(())
            },
        }
    }

    /// The nodes of the graph with further dependencies of `key`, in the
    /// order of their displayed keys.
    fn nodes_with(&self, key: &ServiceKey, new_deps: &[ServiceDependency]) -> (r: Vec<Node>)
        requires
            self.wf(),
        ensures
            value::views(r@) == order::ordered(
                graph_with(self@, key@, value::views(new_deps@)),
                node_order(),
            ),
    {
        let ghost deps = value::views(new_deps@);
        let ghost g = graph_with(self@, key@, deps);
        let spot = self.position(key);
        let mut out: Vec<Keyed<Node>> = Vec::new();
        let mut i: usize = 0;
        assert(order::item_views(out@) =~= g.take(0));
        while i < self.entries.len()
            invariant
                i <= self.entries.len(),
                deps == value::views(new_deps@),
                g == graph_with(self@, key@, deps),
                self.entries.len() <= g.len(),
                self@.len() == self.entries.len(),
                match spot {
                    Some(p) => p < self.entries.len() && holds(self@, key@) && place_of(
                        self@,
                        key@,
                    ) == p && self@[p as int].key == key@,
                    None => !holds(self@, key@),
                },
                order::item_views(out@) == g.take(i as int),
                forall|k: int|
                    0 <= k < out.len() ==> value::views((#[trigger] out@[k]).key@) == node_order()(
                        out@[k].item@,
                    ),
            decreases self.entries.len() - i,
        {
            let e = &self.entries[i];
            assert(self@[i as int] == e@);
            let mut needs: Vec<ServiceKey> = Vec::new();
            push_keys(&mut needs, e.deps.as_slice());
            let ghost own = keys_of(e@.deps);
            assert(value::views(needs@) =~= own);
            let here = match spot {
                Some(p) => p == i,
                None => false,
            };
            if here {
                push_keys(&mut needs, new_deps);
            }
            let node = Node { key: e.key.copy(), needs };
            let sort = text_key(&node.key);
            let ghost n = node@;
            let ghost before = order::item_views(out@);
            out.push(Keyed { key: sort, item: node });
            proof {
                assert(n == g[i as int]);
                assert(order::item_views(out@) =~= before.push(n));
                assert(g.take(i + 1) =~= g.take(i as int).push(g[i as int]));
            }
            i = i + 1;
        }
        if spot.is_none() {
            let mut needs: Vec<ServiceKey> = Vec::new();
            push_keys(&mut needs, new_deps);
            assert(value::views(needs@) =~= keys_of(deps));
            let node = Node { key: key.copy(), needs };
            let sort = text_key(&node.key);
            let ghost n = node@;
            let ghost before = order::item_views(out@);
            out.push(Keyed { key: sort, item: node });
            proof {
                assert(order::item_views(out@) =~= before.push(n));
                assert(before.push(n) =~= g);
            }
        } else {
            assert(g.take(i as int) =~= g);
        }
        order::order_items(out, Ghost(node_order()))
    }

    /// Publishes with declared dependencies, after checking them.
    pub fn publish_with_deps(
        &mut self,
        key: ServiceKey,
        provider: ServiceProvider,
        deps: &[ServiceDependency],
    ) -> (r: Result<(), ServiceError>)
        requires
            old(self).wf(),
        ensures
            final(self).wf(),
            final(self)@ == if r is Ok {
                old(self)@.push(
                    EntryView { key: key@, provider: provider@, deps: value::views(deps@) },
                )
            } else {
                old(self)@
            },
            match r {
                Ok(_) => checks(
                    old(self)@,
                    value::views(deps@),
                    KeyView { scope: key@.scope, name: provider@.contract.name },
                    None,
                ) && publish_error(old(self)@, key@, provider@) is None,
                Err(e) => {
                    ||| checks(
                        old(self)@,
                        value::views(deps@),
                        KeyView { scope: key@.scope, name: provider@.contract.name },
                        Some(e@),
                    )
                    ||| checks(
                        old(self)@,
                        value::views(deps@),
                        KeyView { scope: key@.scope, name: provider@.contract.name },
                        None,
                    ) && publish_error(old(self)@, key@, provider@) == Some(e@)
                },
            },
    {
        match self.check_dependency_cycle(deps, &provider, &key.scope) {
            Err(e) => {
                return Err(e);
            },
            Ok(_) => {},
        }
        match Self::validate_key_contract(&key, &provider) {
            Err(e) => {
                return Err(e);
            },
            Ok(_) => {},
        }
        match self.position(&key) {
            Some(i) => {
                let holder = self.entries[i].provider.copy();
                return Err(ServiceError::Conflict { key, holder, challenger: provider });
            },
            None => {},
        }
        proof {
            lemma_reach(value::views(deps@), key@.scope);
        }
        let mut own: Vec<ServiceDependency> = Vec::new();
        let mut i: usize = 0;
        while i < deps.len()
            invariant
                i <= deps@.len(),
                value::views(own@) == value::views(deps@).take(i as int),
            decreases deps@.len() - i,
        {
            own.push(deps[i].copy());
            i = i + 1;
            assert(value::views(deps@).take(i as int) =~= value::views(deps@).take(i - 1).push(
                deps@[i - 1]@,
            ));
        }
        assert(value::views(deps@).take(i as int) =~= value::views(deps@));
        let entry = ServiceEntry { key, provider, deps: own };
        let ghost e = entry@;
        self.entries.push(entry);
        proof {
            assert(self@ =~= old(self)@.push(e));
            assert(graph_of(self@) =~= graph_with(old(self)@, e.key, e.deps));
            assert forall|i: int, j: int|
                0 <= i < self@.len() && 0 <= j < self@.len() && (#[trigger] self@[i]).key
                    == (#[trigger] self@[j]).key implies i == j by {
                if i < old(self)@.len() {
                    assert(self@[i] == old(self)@[i]);
                }
                if j < old(self)@.len() {
                    assert(self@[j] == old(self)@[j]);
                }
            }
        }
        Ok(())
    }

    /// Removes a publication and its dependencies. Only the owning module may
    /// remove, and only a key that nothing depends on.
    pub fn remove(&mut self, key: &ServiceKey, module_id: &Id128) -> (r: Result<(), ServiceError>)
        requires
            old(self).wf(),
        ensures
            final(self).wf(),
            value::failure(r) == remove_error(old(self)@, key@, module_id@),
            final(self)@ == if r is Ok {
                without(old(self)@, key@)
            } else {
                old(self)@
            },
    {
        let i: usize = match self.position(key) {
            Some(i) => i,
            None => {
                let shown = key.text();
                return Err(
                    ServiceError::InvalidInput(
                        text::cat3("service `", shown.as_str(), "` is not published"),
                    ),
                );
            },
        };
        if !self.entries[i].provider.module_id.same(module_id) {
            return Err(ServiceError::NotOwner { key: key.copy(), module_id: module_id.copy() });
        }
        let dependents = self.dependents_of(key);
        if dependents.len() > 0 {
            return Err(ServiceError::DependentsExist { key: key.copy(), dependents });
        }
        let _ = self.entries.remove(i);
        proof {
            assert(self@ =~= old(self)@.remove(i as int));
            lemma_remove_layered(old(self)@, i as int);
        }
        Ok(())
    }

    /// Takes `key` out, whoever holds it and whatever depends on it.
    pub fn remove_forced(&mut self, key: &ServiceKey)
        requires
            old(self).wf(),
        ensures
            final(self).wf(),
            final(self)@ == without(old(self)@, key@),
    {
        match self.position(key) {
            Some(i) => {
                let _ = self.entries.remove(i);
                proof {
                    assert(self@ =~= old(self)@.remove(i as int));
                    lemma_remove_layered(old(self)@, i as int);
                }
            },
            None => {},
        }
    }

    /// Every publication with its provider and dependencies, in the order of
    /// the displayed keys.
    pub fn snapshot(&self) -> (r: Vec<Publication>)
        ensures
            value::views(r@) == order::ordered(self@, entry_order()),
    {
        let mut out: Vec<Keyed<Publication>> = Vec::new();
        let mut i: usize = 0;
        assert(order::item_views(out@) =~= self@.take(0));
        while i < self.entries.len()
            invariant
                i <= self.entries.len(),
                order::item_views(out@) == self@.take(i as int),
                forall|k: int|
                    0 <= k < out.len() ==> value::views((#[trigger] out@[k]).key@)
                        == entry_order()(out@[k].item@),
            decreases self.entries.len() - i,
        {
            let e = &self.entries[i];
            let item = Publication {
                key: e.key.copy(),
                provider: e.provider.copy(),
                deps: value::copy_vec(&e.deps),
            };
            let sort = text_key(&item.key);
            let ghost before = order::item_views(out@);
            let ghost shown = item@;
            out.push(Keyed { key: sort, item });
            proof {
                assert(shown == self@[i as int]);
                assert(order::item_views(out@) =~= before.push(shown));
                assert(self@.take(i + 1) =~= self@.take(i as int).push(self@[i as int]));
            }
            i = i + 1;
        }
        assert(self@.take(i as int) =~= self@);
        order::order_items(out, Ghost(entry_order()))
    }

    /// The holder of a key, if it is published.
    pub fn holder(&self, key: &ServiceKey) -> (r: Option<&ServiceProvider>)
        requires
            self.wf(),
        ensures
            match r {
                Some(p) => holds(self@, key@) && p@ == holder_of(self@, key@),
                None => !holds(self@, key@),
            },
    {
        match self.position(key) {
            Some(i) => Some(&self.entries[i].provider),
            None => None,
        }
    }

    /// The declared dependencies of a key; none for one that is not published.
    pub fn deps_of(&self, key: &ServiceKey) -> (r: Vec<ServiceDependency>)
        requires
            self.wf(),
        ensures
            value::views(r@) == deps_of(self@, key@),
    {
        match self.position(key) {
            Some(i) => value::copy_vec(&self.entries[i].deps),
            None => {
                let none: Vec<ServiceDependency> = Vec::new();
                assert(value::views(none@) =~= Seq::empty());
                none
            },
        }
    }

    /// An independent copy.
    pub fn duplicate(&self) -> (r: ServiceRegistry)
        ensures
            r@ == self@,
    {
        let mut entries: Vec<ServiceEntry> = Vec::new();
        let mut i: usize = 0;
        while i < self.entries.len()
            invariant
                i <= self.entries.len(),
                value::views(entries@) == self@.take(i as int),
            decreases self.entries.len() - i,
        {
            let e = &self.entries[i];
            entries.push(
                ServiceEntry {
                    key: e.key.copy(),
                    provider: e.provider.copy(),
                    deps: value::copy_vec(&e.deps),
                },
            );
            i = i + 1;
            assert(self@.take(i as int) =~= self@.take(i - 1).push(self@[i - 1]));
        }
        assert(self@.take(i as int) =~= self@);
        ServiceRegistry { entries }
    }
}

/// A refusal found in the first dependencies is the refusal of them all.
proof fn lemma_reach_error_stays(deps: Seq<DependencyView>, scope: Seq<Seq<char>>, n: int)
    requires
        0 <= n <= deps.len(),
        reach_error(deps.take(n), scope) is Some,
    ensures
        reach_error(deps, scope) == reach_error(deps.take(n), scope),
    decreases deps.len() - n,
{
    if n == deps.len() {
        assert(deps.take(n) =~= deps);
    } else {
        assert(deps.take(n + 1).drop_last() =~= deps.take(n));
        lemma_reach_error_stays(deps, scope, n + 1);
    }
}

proof fn lemma_graph_with_distinct(s: Seq<EntryView>, key: KeyView, deps: Seq<DependencyView>)
    requires
        unique_keys(s),
    ensures
        forall|i: int, j: int|
            0 <= i < graph_with(s, key, deps).len() && 0 <= j < graph_with(s, key, deps).len()
                && (#[trigger] graph_with(s, key, deps)[i]).key == (#[trigger] graph_with(
                s,
                key,
                deps,
            )[j]).key ==> i == j,
{
    let g = graph_with(s, key, deps);
    assert forall|i: int, j: int|
        0 <= i < g.len() && 0 <= j < g.len() && (#[trigger] g[i]).key == (#[trigger] g[j]).key
        implies i == j by {
        if i < s.len() {
            assert(g[i].key == s[i].key);
        }
        if j < s.len() {
            assert(g[j].key == s[j].key);
        }
    }
}

// ---------- the removal closure of a scope ----------

/// Each key of `chain` depends on the one before it, and the first is
/// published in `scope`.
pub open spec fn is_chain(
    s: Seq<EntryView>,
    scope: Seq<Seq<char>>,
    chain: Seq<KeyView>,
) -> bool {
    &&& chain.len() > 0
    &&& holds(s, chain[0])
    &&& chain[0].scope == scope
    &&& forall|i: int|
        0 <= i < chain.len() - 1 ==> edge(graph_of(s), chain[i + 1], #[trigger] chain[i])
}

/// `key` is published in `scope`, or depends, directly or not, on a key that is.
pub open spec fn falls_with(s: Seq<EntryView>, scope: Seq<Seq<char>>, key: KeyView) -> bool {
    exists|chain: Seq<KeyView>| #[trigger] is_chain(s, scope, chain) && chain.last() == key
}

/// Which publications fall with `scope`.
pub open spec fn falling(s: Seq<EntryView>, scope: Seq<Seq<char>>) -> Seq<bool> {
    Seq::new(s.len(), |i: int| falls_with(s, scope, s[i].key))
}

/// The publications whose mark is `want`, in order.
pub open spec fn pick(s: Seq<EntryView>, marks: Seq<bool>, want: bool) -> Seq<EntryView>
    decreases s.len(),
{
    if s.len() == 0 {
        s
    } else {
        let rest = pick(s.drop_last(), marks, want);
        if marks[s.len() - 1] == want {
            rest.push(s.last())
        } else {
            rest
        }
    }
}

/// Whatever is picked was there.
pub proof fn lemma_pick(s: Seq<EntryView>, marks: Seq<bool>, want: bool, e: EntryView)
    ensures
        pick(s, marks, want).contains(e) <==> exists|i: int|
            0 <= i < s.len() && #[trigger] s[i] == e && marks[i] == want,
    decreases s.len(),
{
    let all = pick(s, marks, want);
    if s.len() > 0 {
        let t = s.drop_last();
        let rest = pick(t, marks, want);
        lemma_pick(t, marks, want, e);
        if all.contains(e) {
            let k = choose|k: int| 0 <= k < all.len() && all[k] == e;
            if k < rest.len() {
                assert(rest[k] == e);
                let i = choose|i: int| 0 <= i < t.len() && #[trigger] t[i] == e && marks[i] == want;
                assert(s[i] == e);
            } else {
                assert(s[s.len() - 1] == e);
            }
        }
        if exists|i: int| 0 <= i < s.len() && #[trigger] s[i] == e && marks[i] == want {
            let i = choose|i: int| 0 <= i < s.len() && #[trigger] s[i] == e && marks[i] == want;
            if i < t.len() {
                assert(t[i] == e);
                let k = choose|k: int| 0 <= k < rest.len() && rest[k] == e;
                assert(all[k] == e);
            } else {
                assert(all[all.len() - 1] == e);
            }
        }
    }
}

/// Picking keeps keys apart.
proof fn lemma_pick_unique(s: Seq<EntryView>, marks: Seq<bool>, want: bool)
    requires
        unique_keys(s),
    ensures
        unique_keys(pick(s, marks, want)),
    decreases s.len(),
{
    if s.len() > 0 {
        let t = s.drop_last();
        let rest = pick(t, marks, want);
        let all = pick(s, marks, want);
        assert(unique_keys(t)) by {
            assert forall|i: int, j: int|
                0 <= i < t.len() && 0 <= j < t.len() && (#[trigger] t[i]).key
                    == (#[trigger] t[j]).key implies i == j by {
                assert(t[i] == s[i] && t[j] == s[j]);
            }
        }
        lemma_pick_unique(t, marks, want);
        assert forall|i: int, j: int|
            0 <= i < all.len() && 0 <= j < all.len() && (#[trigger] all[i]).key
                == (#[trigger] all[j]).key implies i == j by {
            if i < rest.len() && j == rest.len() {
                assert(rest.contains(rest[i]));
                lemma_pick(t, marks, want, rest[i]);
                let k = choose|k: int|
                    0 <= k < t.len() && #[trigger] t[k] == rest[i] && marks[k] == want;
                assert(s[k].key == s[s.len() - 1].key);
            } else if j < rest.len() && i == rest.len() {
                assert(rest.contains(rest[j]));
                lemma_pick(t, marks, want, rest[j]);
                let k = choose|k: int|
                    0 <= k < t.len() && #[trigger] t[k] == rest[j] && marks[k] == want;
                assert(s[k].key == s[s.len() - 1].key);
            } else if i < rest.len() && j < rest.len() {
                assert(all[i] == rest[i] && all[j] == rest[j]);
            }
        }
    }
}

/// Picking keeps a registry well formed.
pub proof fn lemma_pick_well_formed(s: Seq<EntryView>, marks: Seq<bool>, want: bool)
    requires
        well_formed(s),
    ensures
        well_formed(pick(s, marks, want)),
{
    let p = pick(s, marks, want);
    lemma_pick_unique(s, marks, want);
    let g = graph_of(s);
    let h = graph_of(p);
    let rank = choose|rank: spec_fn(KeyView) -> int| falls(g, rank);
    assert forall|i: int, j: int| 0 <= i < h.len() && 0 <= j < h[i].needs.len() implies rank(
        #[trigger] h[i].needs[j],
    ) < rank(h[i].key) by {
        assert(p.contains(p[i]));
        lemma_pick(s, marks, want, p[i]);
        let k = choose|k: int| 0 <= k < s.len() && #[trigger] s[k] == p[i] && marks[k] == want;
        assert(g[k] == h[i]);
        assert(g[k].needs[j] == h[i].needs[j]);
    }
    assert(falls(h, rank));
    assert forall|i: int| 0 <= i < p.len() implies upward(#[trigger] p[i]) by {
        assert(p.contains(p[i]));
        lemma_pick(s, marks, want, p[i]);
        let k = choose|k: int| 0 <= k < s.len() && #[trigger] s[k] == p[i] && marks[k] == want;
        assert(upward(s[k]));
    }
}

/// Publication `i` depends on a marked one.
spec fn leans_on_marked(s: Seq<EntryView>, marks: Seq<bool>, i: int) -> bool {
    exists|j: int, k: int|
        0 <= k < s.len() && 0 <= j < s[i].deps.len() && marks[k] && (
        #[trigger] s[i].deps[j]).key == (#[trigger] s[k]).key
}

/// A marking that holds the scope's keys and every dependent of a marked key
/// holds all that falls with the scope.
proof fn lemma_closed_marking(
    s: Seq<EntryView>,
    scope: Seq<Seq<char>>,
    marks: Seq<bool>,
    chain: Seq<KeyView>,
    n: int,
)
    requires
        unique_keys(s),
        marks.len() == s.len(),
        is_chain(s, scope, chain),
        0 <= n < chain.len(),
        forall|i: int| 0 <= i < s.len() && (#[trigger] s[i]).key.scope == scope ==> marks[i],
        forall|i: int|
            0 <= i < s.len() && #[trigger] leans_on_marked(s, marks, i) ==> marks[i],
    ensures
        forall|i: int| 0 <= i < s.len() && (#[trigger] s[i]).key == chain[n] ==> marks[i],
        holds(s, chain[n]),
    decreases n,
{
    if n > 0 {
        lemma_closed_marking(s, scope, marks, chain, n - 1);
        assert(edge(graph_of(s), chain[n - 1 + 1], chain[n - 1]));
        let (a, b) = choose|a: int, b: int|
            0 <= a < graph_of(s).len() && 0 <= b < graph_of(s)[a].needs.len() && graph_of(s)[a].key
                == chain[n] && #[trigger] graph_of(s)[a].needs[b] == chain[n - 1];
        let k = place_of(s, chain[n - 1]);
        assert(s[k].key == chain[n - 1]);
        assert(s[a].deps[b].key == s[k].key);
        assert(leans_on_marked(s, marks, a));
        assert(s[a].key == chain[n]);
    }
}

/// A dependent of a key that falls with the scope falls with it too.
proof fn lemma_chain_grows(
    s: Seq<EntryView>,
    scope: Seq<Seq<char>>,
    key: KeyView,
    dependent: KeyView,
)
    requires
        falls_with(s, scope, key),
        edge(graph_of(s), dependent, key),
    ensures
        falls_with(s, scope, dependent),
{
    let chain = choose|chain: Seq<KeyView>|
        #[trigger] is_chain(s, scope, chain) && chain.last() == key;
    let longer = chain.push(dependent);
    assert forall|i: int| 0 <= i < longer.len() - 1 implies edge(
        graph_of(s),
        longer[i + 1],
        #[trigger] longer[i],
    ) by {
        if i < chain.len() - 1 {
            assert(longer[i] == chain[i] && longer[i + 1] == chain[i + 1]);
        }
    }
    assert(is_chain(s, scope, longer));
    assert(longer.last() == dependent);
}

/// How many marks are not set.
spec fn unset(marks: Seq<bool>) -> nat
    decreases marks.len(),
{
    if marks.len() == 0 {
        0
    } else {
        unset(marks.drop_last()) + if marks.last() {
            0nat
        } else {
            1nat
        }
    }
}

proof fn lemma_unset_update(marks: Seq<bool>, i: int)
    requires
        0 <= i < marks.len(),
        !marks[i],
    ensures
        unset(marks.update(i, true)) + 1 == unset(marks),
    decreases marks.len(),
{
    let t = marks.update(i, true);
    if i == marks.len() - 1 {
        assert(t.drop_last() =~= marks.drop_last());
    } else {
        assert(t.drop_last() =~= marks.drop_last().update(i, true));
        lemma_unset_update(marks.drop_last(), i);
    }
}

impl ServiceRegistry {
    /// An unmarked publication that depends on a marked one.
    fn next_dependent(&self, marks: &Vec<bool>) -> (r: Option<usize>)
        requires
            marks.len() == self.entries.len(),
        ensures
            match r {
                Some(i) => i < marks.len() && !marks@[i as int] && leans_on_marked(
                    self@,
                    marks@,
                    i as int,
                ),
                None => forall|i: int|
                    0 <= i < self@.len() && #[trigger] leans_on_marked(self@, marks@, i)
                        ==> marks@[i],
            },
    {
        let mut i: usize = 0;
        while i < self.entries.len()
            invariant
                i <= self.entries.len(),
                marks.len() == self.entries.len(),
                self@.len() == self.entries.len(),
                forall|a: int|
                    0 <= a < i && #[trigger] leans_on_marked(self@, marks@, a) ==> marks@[a],
            decreases self.entries.len() - i,
        {
            if !marks[i] {
                assert(self@[i as int] == self.entries@[i as int]@);
                let mut j: usize = 0;
                while j < self.entries[i].deps.len()
                    invariant
                        i < self.entries.len(),
                        !marks@[i as int],
                        self@[i as int] == self.entries@[i as int]@,
                        j <= self@[i as int].deps.len(),
                        self@[i as int].deps.len() == self.entries@[i as int].deps@.len(),
                        marks.len() == self.entries.len(),
                        self@.len() == self.entries.len(),
                        forall|b: int, k: int|
                            0 <= k < self@.len() && 0 <= b < j && marks@[k] ==> (
                            #[trigger] self@[i as int].deps[b]).key != (#[trigger] self@[k]).key,
                    decreases self@[i as int].deps.len() - j,
                {
                    let ghost d = self@[i as int].deps[j as int];
                    assert(d == self.entries@[i as int].deps@[j as int]@);
                    let mut k: usize = 0;
                    while k < self.entries.len()
                        invariant
                            i < self.entries.len(),
                            !marks@[i as int],
                            self@[i as int] == self.entries@[i as int]@,
                            j < self.entries@[i as int].deps@.len(),
                            d == self@[i as int].deps[j as int],
                            d == self.entries@[i as int].deps@[j as int]@,
                            k <= self.entries.len(),
                            marks.len() == self.entries.len(),
                            self@.len() == self.entries.len(),
                            j < self@[i as int].deps.len(),
                            forall|m: int|
                                0 <= m < k && marks@[m] ==> d.key != (#[trigger] self@[m]).key,
                        decreases self.entries.len() - k,
                    {
                        assert(self@[k as int] == self.entries@[k as int]@);
                        if marks[k] && self.entries[i].deps[j].key.same(&self.entries[k].key) {
                            assert(self@[i as int].deps[j as int].key == self@[k as int].key);
                            assert(leans_on_marked(self@, marks@, i as int));
                            return Some(i);
                        }
                        k = k + 1;
                    }
                    j = j + 1;
                }
            }
            i = i + 1;
        }
        None
    }

    /// Which publications fall with `scope`: its own, and all that depend on
    /// them, directly or not.
    pub fn mark_falling(&self, scope: &ScopePath) -> (r: Vec<bool>)
        requires
            self.wf(),
        ensures
            r@ == falling(self@, scope@),
    {
        let mut marks: Vec<bool> = Vec::new();
        let mut i: usize = 0;
        while i < self.entries.len()
            invariant
                i <= self.entries.len(),
                marks.len() == i,
                forall|k: int|
                    0 <= k < i ==> #[trigger] marks@[k] == (self@[k].key.scope == scope@),
            decreases self.entries.len() - i,
        {
            assert(self@[i as int] == self.entries@[i as int]@);
            marks.push(self.entries[i].key.scope.same(scope));
            i = i + 1;
        }
        proof {
            assert forall|k: int| 0 <= k < self@.len() && #[trigger] marks@[k] implies falls_with(
                self@,
                scope@,
                self@[k].key,
            ) by {
                let chain = seq![self@[k].key];
                assert(holds(self@, chain[0]));
                assert(is_chain(self@, scope@, chain));
                assert(chain.last() == self@[k].key);
            }
        }
        let mut found = self.next_dependent(&marks);
        while found.is_some()
            invariant
                self.wf(),
                marks.len() == self.entries.len(),
                self@.len() == self.entries.len(),
                forall|k: int|
                    0 <= k < self@.len() && (#[trigger] self@[k]).key.scope == scope@
                        ==> marks@[k],
                forall|k: int|
                    0 <= k < self@.len() && #[trigger] marks@[k] ==> falls_with(
                        self@,
                        scope@,
                        self@[k].key,
                    ),
                match found {
                    Some(i) => i < marks.len() && !marks@[i as int] && leans_on_marked(
                        self@,
                        marks@,
                        i as int,
                    ),
                    None => forall|i: int|
                        0 <= i < self@.len() && #[trigger] leans_on_marked(self@, marks@, i)
                            ==> marks@[i],
                },
            decreases unset(marks@),
        {
            let i: usize = found.unwrap();
            let ghost before = marks@;
            proof {
                lemma_unset_update(before, i as int);
                let (j, k) = choose|j: int, k: int|
                    0 <= k < self@.len() && 0 <= j < self@[i as int].deps.len() && before[k] && (
                    #[trigger] self@[i as int].deps[j]).key == (#[trigger] self@[k]).key;
                assert(graph_of(self@)[i as int].needs[j] == self@[k].key);
                assert(edge(graph_of(self@), self@[i as int].key, self@[k].key));
                lemma_chain_grows(self@, scope@, self@[k].key, self@[i as int].key);
            }
            marks.set(i, true);
            found = self.next_dependent(&marks);
        }
        proof {
            assert forall|k: int| 0 <= k < self@.len() && falls_with(
                self@,
                scope@,
                self@[k].key,
            ) implies #[trigger] marks@[k] by {
                let chain = choose|chain: Seq<KeyView>|
                    #[trigger] is_chain(self@, scope@, chain) && chain.last() == self@[k].key;
                lemma_closed_marking(self@, scope@, marks@, chain, chain.len() - 1);
            }
            assert(marks@ =~= falling(self@, scope@));
        }
        marks
    }

    /// Takes the marked publications out, and hands them over in order.
    pub fn take_marked(&mut self, marks: &Vec<bool>) -> (r: Vec<Publication>)
        requires
            old(self).wf(),
            marks@.len() == old(self)@.len(),
        ensures
            final(self).wf(),
            final(self)@ == pick(old(self)@, marks@, false),
            value::views(r@) == pick(old(self)@, marks@, true),
    {
        let ghost all = self@;
        let mut kept: Vec<ServiceEntry> = Vec::new();
        let mut taken: Vec<Publication> = Vec::new();
        let mut i: usize = 0;
        assert(all.take(0) =~= Seq::empty());
        while i < self.entries.len()
            invariant
                i <= self.entries.len(),
                all == self@,
                marks@.len() == all.len(),
                value::views(kept@) == pick(all.take(i as int), marks@, false),
                value::views(taken@) == pick(all.take(i as int), marks@, true),
            decreases self.entries.len() - i,
        {
            let e = &self.entries[i];
            proof {
                assert(all[i as int] == e@);
                assert(all.take(i + 1).drop_last() =~= all.take(i as int));
                assert(all.take(i + 1).last() == e@);
            }
            if marks[i] {
                taken.push(
                    Publication {
                        key: e.key.copy(),
                        provider: e.provider.copy(),
                        deps: value::copy_vec(&e.deps),
                    },
                );
            } else {
                kept.push(
                    ServiceEntry {
                        key: e.key.copy(),
                        provider: e.provider.copy(),
                        deps: value::copy_vec(&e.deps),
                    },
                );
            }
            i = i + 1;
        }
        self.entries = kept;
        proof {
            assert(all.take(i as int) =~= all);
            lemma_pick_well_formed(all, marks@, false);
        }
        taken
    }
}

} // verus!
