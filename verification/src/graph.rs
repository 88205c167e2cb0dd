//! Depth-first search for a cycle among numbered nodes.
use vstd::prelude::*;

verus! {

/// Every successor is a node.
pub open spec fn in_bounds(adj: Seq<Vec<usize>>) -> bool {
    forall|u: int, j: int|
        0 <= u < adj.len() && 0 <= j < adj[u]@.len() ==> #[trigger] adj[u]@[j] < adj.len()
}

/// `v` is a successor of `u`.
pub open spec fn leads(adj: Seq<Vec<usize>>, u: int, v: int) -> bool {
    exists|j: int| 0 <= j < adj[u]@.len() && #[trigger] adj[u]@[j] == v
}

/// Each node of `walk` leads to the next.
pub open spec fn is_walk(adj: Seq<Vec<usize>>, walk: Seq<usize>) -> bool {
    &&& forall|i: int| 0 <= i < walk.len() ==> #[trigger] walk[i] < adj.len()
    &&& forall|i: int|
        0 <= i < walk.len() - 1 ==> leads(adj, #[trigger] walk[i] as int, walk[i + 1] as int)
}

/// A closed walk, with its start repeated at the end.
pub open spec fn is_loop(adj: Seq<Vec<usize>>, walk: Seq<usize>) -> bool {
    &&& is_walk(adj, walk)
    &&& walk.len() >= 2
    &&& walk.first() == walk.last()
}

/// `rank` falls along every edge.
pub open spec fn descends(adj: Seq<Vec<usize>>, rank: spec_fn(int) -> int) -> bool {
    forall|u: int, j: int|
        0 <= u < adj.len() && 0 <= j < adj[u]@.len() ==> rank(#[trigger] adj[u]@[j] as int) < rank(
            u,
        )
}

// ---------- the first cycle ----------

/// The step from `w[i]` to the node after it.
pub open spec fn along(step: spec_fn(int, int) -> bool, w: Seq<int>, i: int) -> bool {
    step(w[i], w[i + 1])
}

/// Each node of `w` is a step from the one before it.
pub open spec fn is_trail(step: spec_fn(int, int) -> bool, w: Seq<int>) -> bool {
    forall|i: int| 0 <= i < w.len() - 1 ==> #[trigger] along(step, w, i)
}

/// The trail starts at `v` and comes back to where it was.
pub open spec fn returns_from(step: spec_fn(int, int) -> bool, v: int, w: Seq<int>) -> bool {
    &&& is_trail(step, w)
    &&& w.len() >= 2
    &&& w[0] == v
    &&& exists|i: int| 0 <= i < w.len() - 1 && #[trigger] w[i] == w.last()
}

/// From `v` one can get to a cycle.
pub open spec fn doomed(step: spec_fn(int, int) -> bool, v: int) -> bool {
    exists|w: Seq<int>| #[trigger] returns_from(step, v, w)
}

/// `v` is the least step from `u` that gets to a cycle.
pub open spec fn turns(step: spec_fn(int, int) -> bool, u: int, v: int) -> bool {
    &&& step(u, v)
    &&& doomed(step, v)
    &&& forall|x: int| x < v && #[trigger] step(u, x) ==> !doomed(step, x)
}

/// The turn from `t[k]` to the node after it.
pub open spec fn turning(step: spec_fn(int, int) -> bool, t: Seq<int>, k: int) -> bool {
    turns(step, t[k], t[k + 1])
}

/// The trail from the least node that gets to a cycle, always by the least
/// step that does, up to the first node that comes again: it stood at `i`.
pub open spec fn lasso(step: spec_fn(int, int) -> bool, t: Seq<int>, i: int) -> bool {
    &&& 0 <= i < t.len() - 1
    &&& t[i] == t.last()
    &&& t.drop_last().no_duplicates()
    &&& doomed(step, t[0])
    &&& forall|x: int| 0 <= x < t[0] ==> !#[trigger] doomed(step, x)
    &&& forall|k: int| 0 <= k < t.len() - 1 ==> #[trigger] turning(step, t, k)
}

/// `walk` is the cycle that the first trail runs into, with its start repeated
/// at the end.
pub open spec fn first_loop(step: spec_fn(int, int) -> bool, walk: Seq<int>) -> bool {
    exists|t: Seq<int>, i: int| #[trigger] lasso(step, t, i) && walk == t.skip(i)
}

/// The steps of a graph.
pub open spec fn steps_of(adj: Seq<Vec<usize>>) -> spec_fn(int, int) -> bool {
    |u: int, v: int| 0 <= u < adj.len() && leads(adj, u, v)
}

/// The successors of each node ascend.
pub open spec fn ascending(adj: Seq<Vec<usize>>) -> bool {
    forall|u: int, a: int, b: int|
        0 <= u < adj.len() && 0 <= a < b < adj[u]@.len() ==> #[trigger] adj[u]@[a]
            <= #[trigger] adj[u]@[b]
}

pub open spec fn ints(s: Seq<usize>) -> Seq<int> {
    s.map_values(|n: usize| n as int)
}

proof fn lemma_lasso_prefix(
    step: spec_fn(int, int) -> bool,
    t: Seq<int>,
    i: int,
    u: Seq<int>,
    j: int,
    k: int,
)
    requires
        lasso(step, t, i),
        lasso(step, u, j),
        0 <= t[0],
        0 <= u[0],
        0 <= k < t.len(),
        k < u.len(),
    ensures
        t[k] == u[k],
    decreases k,
{
    if k == 0 {
        assert(doomed(step, t[0]) && doomed(step, u[0]));
    } else {
        lemma_lasso_prefix(step, t, i, u, j, k - 1);
        assert(turning(step, t, k - 1));
        assert(turning(step, u, k - 1));
        let a = t[k - 1];
        assert(step(a, t[k]) && step(a, u[k]));
    }
}

/// There is at most one first cycle.
pub proof fn lemma_first_loop_is_one(
    step: spec_fn(int, int) -> bool,
    a: Seq<int>,
    b: Seq<int>,
)
    requires
        first_loop(step, a),
        first_loop(step, b),
        forall|u: int, v: int| #[trigger] step(u, v) ==> 0 <= u,
    ensures
        a == b,
{
    let (t, i) = choose|t: Seq<int>, i: int| #[trigger] lasso(step, t, i) && a == t.skip(i);
    let (u, j) = choose|u: Seq<int>, j: int| #[trigger] lasso(step, u, j) && b == u.skip(j);
    assert(turning(step, t, 0) && turning(step, u, 0));
    assert forall|k: int| 0 <= k < t.len() && k < u.len() implies t[k] == u[k] by {
        lemma_lasso_prefix(step, t, i, u, j, k);
    }
    let m = t.len() - 1;
    let n = u.len() - 1;
    if m < n {
        assert(u.drop_last()[m] == u.drop_last()[i]);
    } else if n < m {
        assert(t.drop_last()[n] == t.drop_last()[j]);
    } else {
        assert(t =~= u);
        assert(t.drop_last()[i] == t.drop_last()[j]);
    }
}

/// Every node of a trail that comes back gets to a cycle.
proof fn lemma_trail_doomed(step: spec_fn(int, int) -> bool, t: Seq<int>, i: int, k: int)
    requires
        is_trail(step, t),
        0 <= i < t.len() - 1,
        t[i] == t.last(),
        0 <= k < t.len(),
    ensures
        doomed(step, t[k]),
{
    let m = if k == t.len() - 1 {
        i
    } else {
        k
    };
    if m <= i {
        let w = t.skip(m);
        assert forall|x: int| 0 <= x < w.len() - 1 implies #[trigger] along(step, w, x) by {
            assert(along(step, t, m + x));
        }
        assert(w[i - m] == w.last());
        assert(returns_from(step, t[m], w));
    } else {
        let tail = t.subrange(i + 1, m + 1);
        let w = t.skip(m) + tail;
        let n = t.len() - m;
        assert forall|x: int| 0 <= x < w.len() - 1 implies #[trigger] along(step, w, x) by {
            if x < n - 1 {
                assert(along(step, t, m + x));
            } else {
                let y = i + (x - (n - 1));
                assert(along(step, t, y));
                assert(w[x + 1] == t[y + 1]);
                if x == n - 1 {
                    assert(w[x] == t.last());
                } else {
                    assert(w[x] == t[y]);
                }
            }
        }
        assert(w.last() == t[m]);
        assert(w[0] == w.last());
        assert(returns_from(step, t[m], w));
    }
}

/// Along a trail from a done node, each node was done before the one it is
/// reached from.
proof fn lemma_trail_sinks(adj: Seq<Vec<usize>>, done: Seq<usize>, w: Seq<int>, k: int)
    requires
        in_bounds(adj),
        adj.len() <= usize::MAX,
        settled(adj, done),
        done.no_duplicates(),
        is_trail(steps_of(adj), w),
        0 <= k < w.len(),
        0 <= w[0] < adj.len(),
        done.contains(w[0] as usize),
    ensures
        0 <= w[k] < adj.len(),
        done.contains(w[k] as usize),
        forall|m: int|
            0 <= m < k ==> done.index_of(w[k] as usize) < done.index_of(
                #[trigger] w[m] as usize,
            ),
    decreases k,
{
    if k > 0 {
        lemma_trail_sinks(adj, done, w, k - 1);
        assert(along(steps_of(adj), w, k - 1));
        let u = w[k - 1];
        let v = w[k];
        assert(leads(adj, u, v));
        let j = choose|j: int| 0 <= j < adj[u]@.len() && #[trigger] adj[u]@[j] == v;
        let p = done.index_of(u as usize);
        assert(done[p] == u as usize);
        assert(done.take(p).contains(adj[done[p] as int]@[j]));
        let q = choose|q: int| 0 <= q < p && done.take(p)[q] == v as usize;
        assert(done[q] == v as usize);
        assert(done.index_of(v as usize) == q);
    }
}

/// No done node gets to a cycle.
proof fn lemma_done_is_safe(adj: Seq<Vec<usize>>, done: Seq<usize>, v: int)
    requires
        in_bounds(adj),
        adj.len() <= usize::MAX,
        settled(adj, done),
        done.no_duplicates(),
        0 <= v < adj.len(),
        done.contains(v as usize),
    ensures
        !doomed(steps_of(adj), v),
{
    if doomed(steps_of(adj), v) {
        let w = choose|w: Seq<int>| #[trigger] returns_from(steps_of(adj), v, w);
        let i = choose|i: int| 0 <= i < w.len() - 1 && #[trigger] w[i] == w.last();
        lemma_trail_sinks(adj, done, w, w.len() - 1);
        assert(done.index_of(w[w.len() - 1] as usize) < done.index_of(w[i] as usize));
    }
}

/// What a search from `node` ran into, on from the path that led there.
spec fn found(
    step: spec_fn(int, int) -> bool,
    path: Seq<int>,
    node: int,
    t: Seq<int>,
    i: int,
) -> bool {
    &&& 0 <= i < t.len() - 1
    &&& t.len() > path.len() + 1
    &&& t[i] == t.last()
    &&& t.drop_last().no_duplicates()
    &&& t.take((path.len() + 1) as int) == path.push(node)
    &&& is_trail(step, t)
    &&& forall|k: int| path.len() <= k < t.len() - 1 ==> #[trigger] turning(step, t, k)
}

/// The search found `walk`.
spec fn finds(step: spec_fn(int, int) -> bool, path: Seq<int>, node: int, walk: Seq<int>) -> bool {
    exists|t: Seq<int>, i: int| #[trigger] found(step, path, node, t, i) && walk == t.skip(i)
}

// ---------- the search ----------

#[derive(Clone, Copy, PartialEq, Eq, Structural)]
enum DfsColor {
    White,
    Gray,
    Black,
}

/// The state of a search: gray nodes are those of the current path, black
/// nodes those that are done, each after all its successors.
spec fn search_ok(
    adj: Seq<Vec<usize>>,
    color: Seq<DfsColor>,
    path: Seq<usize>,
    done: Seq<usize>,
) -> bool {
    &&& in_bounds(adj)
    &&& color.len() == adj.len()
    &&& is_walk(adj, path)
    &&& forall|p: int| 0 <= p < done.len() ==> #[trigger] done[p] < adj.len()
    &&& forall|n: int|
        #![trigger color[n]]
        0 <= n < adj.len() ==> (color[n] == DfsColor::Gray <==> path.contains(n as usize))
    &&& forall|n: int|
        #![trigger color[n]]
        0 <= n < adj.len() ==> (color[n] == DfsColor::Black <==> done.contains(n as usize))
    &&& path.no_duplicates()
    &&& done.no_duplicates()
    &&& settled(adj, done)
}

/// Every successor of a done node was done before it.
spec fn settled(adj: Seq<Vec<usize>>, done: Seq<usize>) -> bool {
    forall|p: int, j: int|
        0 <= p < done.len() && 0 <= j < adj[done[p] as int]@.len() ==> done.take(p).contains(
            #[trigger] adj[done[p] as int]@[j],
        )
}

/// A path and a done list with no node in common hold at most all nodes.
proof fn lemma_room(adj: Seq<Vec<usize>>, color: Seq<DfsColor>, path: Seq<usize>, done: Seq<usize>)
    requires
        search_ok(adj, color, path, done),
    ensures
        path.len() + done.len() <= adj.len(),
{
    let all = path + done;
    assert forall|i: int, j: int| 0 <= i < all.len() && 0 <= j < all.len() && i != j implies all[i]
        != all[j] by {
        if i < path.len() && j >= path.len() {
            let n = path[i];
            assert(path.contains(n));
            assert(color[n as int] == DfsColor::Gray);
            if all[j] == n {
                assert(done[j - path.len()] == n);
                assert(done.contains(n));
            }
        } else if i >= path.len() && j < path.len() {
            let n = path[j];
            assert(path.contains(n));
            assert(color[n as int] == DfsColor::Gray);
            if all[i] == n {
                assert(done[i - path.len()] == n);
                assert(done.contains(n));
            }
        } else if i >= path.len() {
            assert(done[i - path.len()] != done[j - path.len()]);
        }
    }
    let ints = all.map_values(|n: usize| n as int);
    assert(ints.no_duplicates());
    ints.unique_seq_to_set();
    let range = vstd::set_lib::set_int_range(0, adj.len() as int);
    vstd::set_lib::lemma_int_range(0, adj.len() as int);
    assert(ints.to_set().subset_of(range)) by {
        assert forall|x: int| ints.to_set().contains(x) implies range.contains(x) by {
            let i = choose|i: int| 0 <= i < ints.len() && ints[i] == x;
            if i < path.len() {
                assert(all[i] == path[i]);
            } else {
                assert(all[i] == done[i - path.len()]);
            }
        }
    }
    vstd::set_lib::lemma_len_subset(ints.to_set(), range);
}

/// Where a gray node stands on the path.
fn place_on(path: &Vec<usize>, node: usize) -> (r: usize)
    requires
        path@.contains(node),
    ensures
        r < path.len(),
        path@[r as int] == node,
{
    let mut i: usize = 0;
    while path[i] != node
        invariant
            i < path.len(),
            exists|k: int| i <= k < path.len() && path@[k] == node,
        decreases path.len() - i,
    {
        i = i + 1;
    }
    i
}

/// The stretch of the path from a gray node on, closed by a back edge to it.
fn close_walk(adj: &Vec<Vec<usize>>, path: &Vec<usize>, succ: usize) -> (walk: Vec<usize>)
    requires
        is_walk(adj@, path@),
        path@.contains(succ),
        leads(adj@, path@.last() as int, succ as int),
        succ < adj.len(),
    ensures
        is_loop(adj@, walk@),
        exists|i: int|
            0 <= i < path.len() && #[trigger] path@[i] == succ && walk@ == path@.push(succ).skip(i),
{
    let start = place_on(path, succ);
    let mut walk: Vec<usize> = Vec::new();
    let mut i: usize = start;
    while i < path.len()
        invariant
            start <= i <= path.len(),
            walk@ == path@.subrange(start as int, i as int),
        decreases path.len() - i,
    {
        walk.push(path[i]);
        i = i + 1;
        assert(walk@ =~= path@.subrange(start as int, i as int));
    }
    walk.push(succ);
    proof {
        let w = walk@;
        let n = path@.len() - start;
        assert forall|i: int| 0 <= i < w.len() - 1 implies leads(
            adj@,
            #[trigger] w[i] as int,
            w[i + 1] as int,
        ) by {
            assert(w[i] == path@[start + i]);
            if i < n - 1 {
                assert(w[i + 1] == path@[start + i + 1]);
                assert(leads(
                    adj@,
                    path@[start + i] as int,
                    path@[start + i + 1] as int,
                ));
            }
        }
        assert(w[0] == succ);
        assert(path@[start as int] == succ);
        assert(w =~= path@.push(succ).skip(start as int));
    }
    walk
}

/// The least way on from `node` that gets to a cycle, where those before it
/// are done.
proof fn lemma_turns(
    adj: Seq<Vec<usize>>,
    done: Seq<usize>,
    node: usize,
    j: int,
)
    requires
        in_bounds(adj),
        adj.len() <= usize::MAX,
        ascending(adj),
        settled(adj, done),
        done.no_duplicates(),
        node < adj.len(),
        0 <= j < adj[node as int]@.len(),
        forall|k: int| 0 <= k < j ==> done.contains(#[trigger] adj[node as int]@[k]),
    ensures
        forall|x: int|
            x < adj[node as int]@[j] && #[trigger] steps_of(adj)(node as int, x) ==> !doomed(
                steps_of(adj),
                x,
            ),
{
    assert forall|x: int|
        x < adj[node as int]@[j] && #[trigger] steps_of(adj)(node as int, x) implies !doomed(
        steps_of(adj),
        x,
    ) by {
        assert(leads(adj, node as int, x));
        let m = choose|m: int|
            0 <= m < adj[node as int]@.len() && #[trigger] adj[node as int]@[m] == x;
        if m >= j {
            if m > j {
                assert(adj[node as int]@[j] <= adj[node as int]@[m]);
            }
        }
        assert(done.contains(adj[node as int]@[m]));
        lemma_done_is_safe(adj, done, x);
    }
}

/// A path with a step back to one of its nodes is a trail that comes back.
proof fn lemma_closed_trail(adj: Seq<Vec<usize>>, full: Seq<usize>, succ: usize)
    requires
        full.len() > 0,
        is_walk(adj, full),
        full.no_duplicates(),
        leads(adj, full.last() as int, succ as int),
    ensures
        is_trail(steps_of(adj), ints(full.push(succ))),
        ints(full.push(succ)).drop_last() == ints(full),
        ints(full).no_duplicates(),
{
    let t = ints(full.push(succ));
    assert(t.drop_last() =~= ints(full));
    assert forall|a: int, b: int|
        0 <= a < ints(full).len() && 0 <= b < ints(full).len() && a != b implies ints(full)[a]
        != ints(full)[b] by {
        assert(full[a] != full[b]);
    }
    assert forall|x: int| 0 <= x < t.len() - 1 implies #[trigger] along(steps_of(adj), t, x) by {
        assert(full[x] < adj.len());
        if x < full.len() - 1 {
            assert(leads(adj, full[x] as int, full[x + 1] as int));
            assert(t[x + 1] == full[x + 1] as int);
        } else {
            assert(t[x + 1] == succ as int);
        }
    }
}

/// A back edge from the end of the path to its node at `i`.
proof fn lemma_back_edge(
    adj: Seq<Vec<usize>>,
    path: Seq<usize>,
    node: usize,
    succ: usize,
    i: int,
)
    requires
        is_walk(adj, path.push(node)),
        path.push(node).no_duplicates(),
        leads(adj, node as int, succ as int),
        0 <= i < path.len() + 1,
        path.push(node)[i] == succ,
        forall|x: int|
            x < succ && #[trigger] steps_of(adj)(node as int, x) ==> !doomed(steps_of(adj), x),
    ensures
        finds(
            steps_of(adj),
            ints(path),
            node as int,
            ints(path.push(node).push(succ).skip(i)),
        ),
{
    let full = path.push(node);
    let step = steps_of(adj);
    let t = ints(full.push(succ));
    let n = path.len() as int;
    lemma_closed_trail(adj, full, succ);
    assert(t.take(n + 1) =~= ints(path).push(node as int));
    assert(t[i] == t.last());
    lemma_trail_doomed(step, t, i, t.len() - 1);
    assert(along(step, t, n));
    assert(t[n] == node as int && t[n + 1] == succ as int);
    assert(turning(step, t, n));
    assert forall|k: int| ints(path).len() <= k < t.len() - 1 implies #[trigger] turning(
        step,
        t,
        k,
    ) by {
        assert(k == n);
    }
    assert(found(step, ints(path), node as int, t, i));
    assert(ints(full.push(succ).skip(i)) =~= t.skip(i));
}

/// A cycle that was found from a successor was found from its node.
proof fn lemma_found_further(
    adj: Seq<Vec<usize>>,
    path: Seq<usize>,
    node: usize,
    succ: usize,
    walk: Seq<int>,
)
    requires
        leads(adj, node as int, succ as int),
        node < adj.len(),
        finds(steps_of(adj), ints(path.push(node)), succ as int, walk),
        forall|x: int|
            x < succ && #[trigger] steps_of(adj)(node as int, x) ==> !doomed(steps_of(adj), x),
    ensures
        finds(steps_of(adj), ints(path), node as int, walk),
{
    let step = steps_of(adj);
    let full = ints(path.push(node));
    let (t, i) = choose|t: Seq<int>, i: int|
        #[trigger] found(step, full, succ as int, t, i) && walk == t.skip(i);
    let n = path.len() as int;
    assert(full.push(succ as int)[n] == node as int);
    assert(t.take(n + 2)[n] == node as int);
    assert(t.take(n + 2)[n + 1] == succ as int);
    assert(t[n] == node as int && t[n + 1] == succ as int);
    lemma_trail_doomed(step, t, i, n + 1);
    assert(turning(step, t, n));
    assert(t.take(n + 1) =~= ints(path).push(node as int)) by {
        assert forall|k: int| 0 <= k < n + 1 implies t.take(n + 1)[k] == ints(path).push(
            node as int,
        )[k] by {
            assert(t.take(n + 2)[k] == full.push(succ as int)[k]);
        }
    }
    assert forall|k: int| n <= k < t.len() - 1 implies #[trigger] turning(step, t, k) by {
        if k > n {
            assert(full.len() <= k);
        }
    }
    assert(found(step, ints(path), node as int, t, i));
}

/// Searches from a white node; reports a cycle when a back edge hits a gray
/// node, otherwise leaves the node and all it reaches black.
fn visit(
    adj: &Vec<Vec<usize>>,
    color: &mut Vec<DfsColor>,
    path: &mut Vec<usize>,
    done: &mut Vec<usize>,
    node: usize,
) -> (r: Option<Vec<usize>>)
    requires
        search_ok(adj@, old(color)@, old(path)@, old(done)@),
        ascending(adj@),
        node < adj.len(),
        old(color)@[node as int] == DfsColor::White,
        old(path)@.len() > 0 ==> leads(adj@, old(path)@.last() as int, node as int),
    ensures
        match r {
            Some(walk) => {
                &&& is_loop(adj@, walk@)
                &&& finds(steps_of(adj@), ints(old(path)@), node as int, ints(walk@))
            },
            None => {
                &&& search_ok(adj@, final(color)@, final(path)@, final(done)@)
                &&& final(path)@ == old(path)@
                &&& old(done)@.is_prefix_of(final(done)@)
                &&& final(color)@[node as int] == DfsColor::Black
            },
        },
    decreases adj.len() - old(path).len() - old(done).len(),
{
    let ghost path0 = path@;
    let ghost done0 = done@;
    color.set(node, DfsColor::Gray);
    path.push(node);
    proof {
        assert(!path0.contains(node) && !done0.contains(node)) by {
            assert(old(color)@[node as int] == DfsColor::White);
        }
        assert forall|i: int| 0 <= i < path@.len() - 1 implies leads(
            adj@,
            #[trigger] path@[i] as int,
            path@[i + 1] as int,
        ) by {
            if i < path0.len() - 1 {
                assert(path@[i] == path0[i] && path@[i + 1] == path0[i + 1]);
            }
        }
        assert forall|n: int| 0 <= n < adj.len() implies (#[trigger] color@[n] == DfsColor::Gray
            <==> path@.contains(n as usize)) by {
            if path0.contains(n as usize) {
                let k = choose|k: int| 0 <= k < path0.len() && path0[k] == n as usize;
                assert(path@[k] == n as usize);
            }
            if n == node {
                assert(path@[path0.len() as int] == node);
            } else if path@.contains(n as usize) {
                let k = choose|k: int| 0 <= k < path@.len() && path@[k] == n as usize;
                assert(path0[k] == n as usize);
            }
            assert(old(color)@[n] == DfsColor::Gray <==> path0.contains(n as usize));
        }
        assert forall|n: int| 0 <= n < adj.len() implies (#[trigger] color@[n] == DfsColor::Black
            <==> done@.contains(n as usize)) by {
            assert(old(color)@[n] == DfsColor::Black <==> done0.contains(n as usize));
        }
        assert(search_ok(adj@, color@, path@, done@));
        lemma_room(adj@, color@, path@, done@);
    }
    let mut j: usize = 0;
    while j < adj[node as usize].len()
        invariant
            node < adj.len(),
            ascending(adj@),
            j <= adj@[node as int]@.len(),
            search_ok(adj@, color@, path@, done@),
            path@ == path0.push(node),
            done0.is_prefix_of(done@),
            path0.len() + 1 + done0.len() <= adj.len(),
            path0 == old(path)@,
            done0 == old(done)@,
            forall|k: int| 0 <= k < j ==> done@.contains(#[trigger] adj@[node as int]@[k]),
        decreases adj@[node as int]@.len() - j,
    {
        let succ: usize = adj[node][j];
        proof {
            assert(adj@[node as int]@[j as int] == succ);
            assert(leads(adj@, node as int, succ as int));
            lemma_turns(adj@, done@, node, j as int);
        }
        match color[succ] {
            DfsColor::Gray => {
                let walk = close_walk(adj, path, succ);
                proof {
                    let i = choose|i: int|
                        0 <= i < path.len() && #[trigger] path@[i] == succ && walk@
                            == path@.push(succ).skip(i);
                    lemma_back_edge(adj@, path0, node, succ, i);
                }
                return Some(walk);
            },
            DfsColor::White => {
                proof {
                    assert(path@.last() == node);
                    lemma_room(adj@, color@, path@, done@);
                }
                let ghost done1 = done@;
                match visit(adj, color, path, done, succ) {
                    Some(walk) => {
                        proof {
                            lemma_found_further(adj@, path0, node, succ, ints(walk@));
                        }
                        return Some(walk);
                    },
                    None => {},
                }
                proof {
                    assert forall|k: int| 0 <= k < j + 1 implies done@.contains(
                        #[trigger] adj@[node as int]@[k],
                    ) by {
                        if k < j {
                            let x = adj@[node as int]@[k];
                            let q = choose|q: int| 0 <= q < done1.len() && done1[q] == x;
                            assert(done@[q] == x);
                        }
                    }
                }
            },
            DfsColor::Black => {},
        }
        j = j + 1;
    }
    let ghost color1 = color@;
    let ghost done1 = done@;
    let _ = path.pop();
    color.set(node, DfsColor::Black);
    done.push(node);
    proof {
        assert(path@ =~= path0);
        assert(color1[node as int] == DfsColor::Gray) by {
            assert(path0.push(node)[path0.len() as int] == node);
        }
        assert(!done1.contains(node));
        assert(!path0.contains(node)) by {
            if path0.contains(node) {
                let k = choose|k: int| 0 <= k < path0.len() && path0[k] == node;
                assert(path0.push(node)[k] == path0.push(node)[path0.len() as int]);
            }
        }
        assert(is_walk(adj@, path0)) by {
            assert forall|i: int| 0 <= i < path0.len() implies #[trigger] path0[i] < adj.len() by {
                assert(path0.push(node)[i] == path0[i]);
            }
            assert forall|i: int| 0 <= i < path0.len() - 1 implies leads(
                adj@,
                #[trigger] path0[i] as int,
                path0[i + 1] as int,
            ) by {
                assert(path0.push(node)[i] == path0[i] && path0.push(node)[i + 1] == path0[i + 1]);
            }
        }
        assert forall|n: int| 0 <= n < adj.len() implies (#[trigger] color@[n] == DfsColor::Gray
            <==> path@.contains(n as usize)) by {
            assert(color1[n] == DfsColor::Gray <==> path0.push(node).contains(n as usize));
            if n != node {
                if path0.contains(n as usize) {
                    let k = choose|k: int| 0 <= k < path0.len() && path0[k] == n as usize;
                    assert(path0.push(node)[k] == n as usize);
                }
                if path0.push(node).contains(n as usize) {
                    let k = choose|k: int|
                        0 <= k < path0.push(node).len() && path0.push(node)[k] == n as usize;
                    assert(path0[k] == n as usize);
                }
            }
        }
        assert forall|n: int| 0 <= n < adj.len() implies (#[trigger] color@[n] == DfsColor::Black
            <==> done@.contains(n as usize)) by {
            assert(color1[n] == DfsColor::Black <==> done1.contains(n as usize));
            if n == node {
                assert(done@[done1.len() as int] == node);
            } else {
                if done1.contains(n as usize) {
                    let k = choose|k: int| 0 <= k < done1.len() && done1[k] == n as usize;
                    assert(done@[k] == n as usize);
                }
                if done@.contains(n as usize) {
                    let k = choose|k: int| 0 <= k < done@.len() && done@[k] == n as usize;
                    assert(done1[k] == n as usize);
                }
            }
        }
        assert(done@.no_duplicates());
        assert(path0.no_duplicates()) by {
            assert forall|i: int, k: int|
                0 <= i < path0.len() && 0 <= k < path0.len() && i != k implies path0[i]
                != path0[k] by {
                assert(path0.push(node)[i] != path0.push(node)[k]);
            }
        }
        assert(settled(adj@, done@)) by {
            assert forall|p: int, k: int|
                0 <= p < done@.len() && 0 <= k < adj@[done@[p] as int]@.len() implies done@.take(
                p,
            ).contains(#[trigger] adj@[done@[p] as int]@[k]) by {
                if p < done1.len() {
                    assert(done@[p] == done1[p]);
                    assert(done@.take(p) =~= done1.take(p));
                } else {
                    assert(done@.take(p) =~= done1);
                }
            }
        }
        assert(done0.is_prefix_of(done@));
    }
    None
}

/// The first cycle of the graph, or none when its nodes can be ranked so that
/// the rank falls along every edge.
pub fn find_cycle(adj: &Vec<Vec<usize>>) -> (r: Option<Vec<usize>>)
    requires
        in_bounds(adj@),
        ascending(adj@),
    ensures
        match r {
            Some(walk) => is_loop(adj@, walk@) && first_loop(steps_of(adj@), ints(walk@)),
            None => exists|rank: spec_fn(int) -> int| descends(adj@, rank),
        },
{
    let mut color: Vec<DfsColor> = Vec::new();
    let mut n: usize = 0;
    while n < adj.len()
        invariant
            n <= adj.len(),
            color.len() == n,
            forall|k: int| 0 <= k < n ==> #[trigger] color@[k] == DfsColor::White,
        decreases adj.len() - n,
    {
        color.push(DfsColor::White);
        n = n + 1;
    }
    let mut path: Vec<usize> = Vec::new();
    let mut done: Vec<usize> = Vec::new();
    let mut start: usize = 0;
    while start < adj.len()
        invariant
            start <= adj.len(),
            ascending(adj@),
            search_ok(adj@, color@, path@, done@),
            path@.len() == 0,
            forall|k: usize| k < start ==> #[trigger] done@.contains(k),
        decreases adj.len() - start,
    {
        let ghost done1 = done@;
        let ghost path0 = path@;
        match color[start] {
            DfsColor::White => {
                match visit(adj, &mut color, &mut path, &mut done, start) {
                    Some(walk) => {
                        proof {
                            let step = steps_of(adj@);
                            let none = ints(Seq::<usize>::empty());
                            assert(ints(path0) =~= none);
                            let (t, i) = choose|t: Seq<int>, i: int|
                                #[trigger] found(step, ints(path0), start as int, t, i)
                                    && ints(walk@) == t.skip(i);
                            assert(t.take(1)[0] == start as int);
                            lemma_trail_doomed(step, t, i, 0);
                            assert forall|x: int| 0 <= x < t[0] implies !#[trigger] doomed(
                                step,
                                x,
                            ) by {
                                assert(done1.contains(x as usize));
                                lemma_done_is_safe(adj@, done1, x);
                            }
                            assert(lasso(step, t, i));
                        }
                        return Some(walk);
                    },
                    None => {},
                }
            },
            DfsColor::Gray => {
                assert(path@.contains(start));
            },
            DfsColor::Black => {},
        }
        proof {
            assert(color@[start as int] == DfsColor::Black);
            assert forall|k: usize| k < start + 1 implies #[trigger] done@.contains(k) by {
                if k < start {
                    assert(done1.contains(k));
                    let q = choose|q: int| 0 <= q < done1.len() && done1[q] == k;
                    assert(done@[q] == k);
                }
            }
        }
        start = start + 1;
    }
    proof {
        let finish = done@;
        let rank = |u: int| finish.index_of(u as usize);
        assert forall|u: int, j: int| 0 <= u < adj.len() && 0 <= j < adj@[u]@.len() implies rank(
            #[trigger] adj@[u]@[j] as int,
        ) < rank(u) by {
            assert(finish.contains(u as usize));
            let p = finish.index_of(u as usize);
            assert(finish[p] == u as usize);
            let v = adj@[u]@[j];
            assert(finish.take(p).contains(adj@[finish[p] as int]@[j]));
            let q = choose|q: int| 0 <= q < p && finish.take(p)[q] == v;
            assert(finish[q] == v);
            assert(finish.index_of(v) == q);
        }
        assert(descends(adj@, rank));
    }
    None
}

} // verus!
