//! The scope tree: a root scope with single-level child scopes.
use vstd::prelude::*;
use vstd::string::*;
use crate::errors::{ScopeError, ScopeErrorView};
use crate::order;
use crate::order::Keyed;
use crate::registry;
use crate::registry::{ContributionRegistry, RegistryView};
use crate::services;
use crate::services::ScopePath;
use crate::text;
use crate::value;
use crate::value::Value;

verus! {

broadcast use value::group_views;

/// Who a scope is leased to: a module generation or a session run.
#[derive(Debug, Clone, Copy, PartialEq, Eq, Structural)]
pub enum OwnerLease {
    Generation(u64),
    Run(u64),
}

/// A scope record in the tree.
#[derive(Debug, Clone, PartialEq, Eq)]
pub struct Scope {
    pub path: ScopePath,
    pub owner: OwnerLease,
    pub parent: Option<ScopePath>,
    pub children: Vec<ScopePath>,
}

pub struct ScopeView {
    pub path: Seq<Seq<char>>,
    pub owner: OwnerLease,
    pub parent: Option<Seq<Seq<char>>>,
    pub children: Seq<Seq<Seq<char>>>,
}

impl View for Scope {
    type V = ScopeView;

    open spec fn view(&self) -> ScopeView {
        ScopeView {
            path: self.path@,
            owner: self.owner,
            parent: value::opt_view(self.parent),
            children: value::views(self.children@),
        }
    }
}

impl Scope {
    fn copy(&self) -> (r: Scope)
        ensures
            r@ == self@,
    {
        Scope {
            path: self.path.copy(),
            owner: self.owner,
            parent: value::copy_opt(&self.parent),
            children: value::copy_vec(&self.children),
        }
    }
}

/// The scope tree, with no record twice.
pub struct ScopeTree {
    scopes: Vec<Scope>,
}

impl View for ScopeTree {
    type V = Seq<ScopeView>;

    closed spec fn view(&self) -> Seq<ScopeView> {
        value::views(self.scopes@)
    }
}

pub open spec fn root_path() -> Seq<Seq<char>> {
    Seq::empty()
}

/// `path` has a record.
pub open spec fn known(t: Seq<ScopeView>, path: Seq<Seq<char>>) -> bool {
    exists|i: int| 0 <= i < t.len() && (#[trigger] t[i]).path == path
}

/// Where the record of `path` stands.
pub open spec fn record_at(t: Seq<ScopeView>, path: Seq<Seq<char>>) -> int {
    choose|i: int| 0 <= i < t.len() && (#[trigger] t[i]).path == path
}

/// Records are unique; a child of the root has a one-part path with a name, and
/// no children; the root's children are its child records, each listed once;
/// and without a root there are no records at all.
pub open spec fn tree_ok(t: Seq<ScopeView>) -> bool {
    &&& forall|i: int, j: int|
        0 <= i < t.len() && 0 <= j < t.len() && (#[trigger] t[i]).path == (#[trigger] t[j]).path
            ==> i == j
    &&& forall|i: int|
        0 <= i < t.len() ==> if (#[trigger] t[i]).path == root_path() {
            &&& t[i].parent is None
            &&& t[i].children.no_duplicates()
            &&& forall|k: int|
                0 <= k < t[i].children.len() ==> (#[trigger] t[i].children[k]).len() == 1 && known(
                    t,
                    t[i].children[k],
                )
        } else {
            &&& t[i].path.len() == 1
            &&& t[i].path[0].len() > 0
            &&& t[i].parent == Some(root_path())
            &&& t[i].children.len() == 0
        }
    &&& t.len() > 0 ==> known(t, root_path())
    &&& known(t, root_path()) ==> forall|i: int|
        0 <= i < t.len() && (#[trigger] t[i]).path != root_path() ==> t[record_at(
            t,
            root_path(),
        )].children.contains(t[i].path)
}

pub open spec fn root_record() -> ScopeView {
    ScopeView {
        path: root_path(),
        owner: OwnerLease::Run(0),
        parent: None,
        children: Seq::empty(),
    }
}

/// A child named `name` is already listed under the root.
pub open spec fn name_taken(children: Seq<Seq<Seq<char>>>, name: Seq<char>) -> bool {
    exists|i: int|
        0 <= i < children.len() && (#[trigger] children[i]).len() > 0 && children[i].last() == name
}

/// Why a child cannot be created.
pub open spec fn child_error(
    t: Seq<ScopeView>,
    parent: Seq<Seq<char>>,
    name: Seq<char>,
) -> Option<ScopeErrorView> {
    if parent != root_path() {
        Some(
            ScopeErrorView::InvalidInput(
                "nested scopes are MVP non-goals (R-26): only the root may have children"@,
            ),
        )
    } else if !known(t, root_path()) {
        Some(
            ScopeErrorView::InvalidInput(
                "root scope is not present; a disposed root must be rebuilt with `new_root`"@,
            ),
        )
    } else if name.len() == 0 {
        Some(ScopeErrorView::InvalidInput("scope name must not be empty"@))
    } else if name_taken(t[record_at(t, root_path())].children, name) {
        Some(ScopeErrorView::DuplicateScope { parent, name })
    } else {
        None
    }
}

pub open spec fn child_path(name: Seq<char>) -> Seq<Seq<char>> {
    Seq::<Seq<char>>::empty().push(name)
}

/// The tree with a new child of the root.
pub open spec fn with_child(t: Seq<ScopeView>, name: Seq<char>, owner: OwnerLease) -> Seq<
    ScopeView,
> {
    let r = record_at(t, root_path());
    t.update(
        r,
        ScopeView {
            path: t[r].path,
            owner: t[r].owner,
            parent: t[r].parent,
            children: t[r].children.push(child_path(name)),
        },
    ).push(
        ScopeView {
            path: child_path(name),
            owner,
            parent: Some(root_path()),
            children: Seq::empty(),
        },
    )
}

/// The paths other than `path`.
pub open spec fn others(children: Seq<Seq<Seq<char>>>, path: Seq<Seq<char>>) -> Seq<
    Seq<Seq<char>>,
>
    decreases children.len(),
{
    if children.len() == 0 {
        children
    } else if children.last() == path {
        others(children.drop_last(), path)
    } else {
        others(children.drop_last(), path).push(children.last())
    }
}

/// The tree without the record of `path` and without its listing under its
/// parent.
pub open spec fn pruned(t: Seq<ScopeView>, path: Seq<Seq<char>>) -> Seq<ScopeView> {
    let i = record_at(t, path);
    let rest = t.remove(i);
    match t[i].parent {
        Some(p) => if known(rest, p) {
            let r = record_at(rest, p);
            rest.update(
                r,
                ScopeView {
                    path: rest[r].path,
                    owner: rest[r].owner,
                    parent: rest[r].parent,
                    children: others(rest[r].children, path),
                },
            )
        } else {
            rest
        },
        None => rest,
    }
}

/// What a disposal leaves: the tree, the registry, and a refusal if one
/// stopped it.
pub struct Disposal {
    pub tree: Seq<ScopeView>,
    pub registry: RegistryView,
    pub refusal: Option<ScopeErrorView>,
}

pub open spec fn unknown_scope(path: Seq<Seq<char>>) -> ScopeErrorView {
    ScopeErrorView::InvalidInput("unknown scope `"@ + services::scope_text(path) + "`"@)
}

/// Disposes a scope whose children are gone.
pub open spec fn dispose_one(
    t: Seq<ScopeView>,
    v: RegistryView,
    path: Seq<Seq<char>>,
    force: bool,
) -> Disposal {
    if !known(t, path) {
        Disposal { tree: t, registry: v, refusal: Some(unknown_scope(path)) }
    } else if registry::removal_error(v, path, force) is Some {
        Disposal { tree: t, registry: v, refusal: registry::removal_error(v, path, force) }
    } else {
        Disposal {
            tree: pruned(t, path),
            registry: registry::scope_removed(v, path),
            refusal: None,
        }
    }
}

/// Disposes the listed scopes one after the other, up to the first refusal.
pub open spec fn dispose_each(
    t: Seq<ScopeView>,
    v: RegistryView,
    list: Seq<Seq<Seq<char>>>,
    force: bool,
) -> Disposal
    decreases list.len(),
{
    if list.len() == 0 {
        Disposal { tree: t, registry: v, refusal: None }
    } else {
        let d = dispose_each(t, v, list.drop_last(), force);
        if d.refusal is Some {
            d
        } else {
            dispose_one(d.tree, d.registry, list.last(), force)
        }
    }
}

/// Disposes a scope: its children first, then the scope itself.
pub open spec fn disposal(
    t: Seq<ScopeView>,
    v: RegistryView,
    path: Seq<Seq<char>>,
    force: bool,
) -> Disposal {
    if !known(t, path) {
        Disposal { tree: t, registry: v, refusal: Some(unknown_scope(path)) }
    } else {
        let d = dispose_each(t, v, t[record_at(t, path)].children, force);
        if d.refusal is Some {
            d
        } else {
            dispose_one(d.tree, d.registry, path, force)
        }
    }
}

proof fn lemma_dispose_each_stays(
    t: Seq<ScopeView>,
    v: RegistryView,
    list: Seq<Seq<Seq<char>>>,
    force: bool,
    n: int,
)
    requires
        0 <= n <= list.len(),
        dispose_each(t, v, list.take(n), force).refusal is Some,
    ensures
        dispose_each(t, v, list, force) == dispose_each(t, v, list.take(n), force),
    decreases list.len() - n,
{
    if n == list.len() {
        assert(list.take(n) =~= list);
    } else {
        assert(list.take(n + 1).drop_last() =~= list.take(n));
        lemma_dispose_each_stays(t, v, list, force, n + 1);
    }
}

proof fn lemma_others(children: Seq<Seq<Seq<char>>>, path: Seq<Seq<char>>)
    ensures
        forall|k: int|
            0 <= k < others(children, path).len() ==> children.contains(
                #[trigger] others(children, path)[k],
            ) && others(children, path)[k] != path,
        children.no_duplicates() ==> others(children, path).no_duplicates(),
        forall|x: Seq<Seq<char>>|
            children.contains(x) && x != path ==> #[trigger] others(children, path).contains(x),
    decreases children.len(),
{
    if children.len() > 0 {
        let t = children.drop_last();
        let rest = others(t, path);
        let all = others(children, path);
        lemma_others(t, path);
        assert forall|k: int| 0 <= k < all.len() implies children.contains(#[trigger] all[k])
            && all[k] != path by {
            if k < rest.len() {
                assert(all[k] == rest[k]);
                let m = choose|m: int| 0 <= m < t.len() && t[m] == rest[k];
                assert(children[m] == rest[k]);
            } else {
                assert(children[children.len() - 1] == all[k]);
            }
        }
        assert forall|x: Seq<Seq<char>>| children.contains(x) && x != path implies
            #[trigger] all.contains(x) by {
            let m = choose|m: int| 0 <= m < children.len() && children[m] == x;
            if m < t.len() {
                assert(t[m] == x);
                assert(rest.contains(x));
                let q = choose|q: int| 0 <= q < rest.len() && rest[q] == x;
                assert(all[q] == x);
            } else {
                assert(all[all.len() - 1] == x);
            }
        }
        if children.no_duplicates() {
            assert(t.no_duplicates());
            assert forall|a: int, b: int| 0 <= a < all.len() && 0 <= b < all.len() && a != b implies
                all[a] != all[b] by {
                if a < rest.len() && b < rest.len() {
                    assert(all[a] == rest[a] && all[b] == rest[b]);
                } else {
                    let m = if a < rest.len() {
                        a
                    } else {
                        b
                    };
                    assert(all[m] == rest[m]);
                    let q = choose|q: int| 0 <= q < t.len() && t[q] == rest[m];
                    assert(t.contains(rest[m]));
                    assert(children[q] == rest[m]);
                    assert(children[children.len() - 1] == children.last());
                }
            }
        }
    }
}

/// Pruning keeps the tree well formed.
proof fn lemma_pruned_ok(t: Seq<ScopeView>, path: Seq<Seq<char>>)
    requires
        tree_ok(t),
        known(t, path),
        t[record_at(t, path)].children.len() == 0,
    ensures
        tree_ok(pruned(t, path)),
{
    let i = record_at(t, path);
    let rest = t.remove(i);
    let p = pruned(t, path);
    assert(t[i].path == path);
    assert forall|a: int| 0 <= a < rest.len() implies #[trigger] rest[a] == t[if a < i {
        a
    } else {
        a + 1
    }] by {}
    assert forall|a: int, b: int|
        0 <= a < p.len() && 0 <= b < p.len() && (#[trigger] p[a]).path == (
        #[trigger] p[b]).path implies a == b by {
        assert(p[a].path == rest[a].path && p[b].path == rest[b].path);
        let x = if a < i {
            a
        } else {
            a + 1
        };
        let y = if b < i {
            b
        } else {
            b + 1
        };
        assert(t[x].path == t[y].path);
    }
    assert forall|a: int| 0 <= a < p.len() implies if (#[trigger] p[a]).path == root_path() {
        &&& p[a].parent is None
        &&& p[a].children.no_duplicates()
        &&& forall|k: int|
            0 <= k < p[a].children.len() ==> (#[trigger] p[a].children[k]).len() == 1 && known(
                p,
                p[a].children[k],
            )
    } else {
        &&& p[a].path.len() == 1
        &&& p[a].path[0].len() > 0
        &&& p[a].parent == Some(root_path())
        &&& p[a].children.len() == 0
    } by {
        let x = if a < i {
            a
        } else {
            a + 1
        };
        assert(rest[a] == t[x]);
        assert(p[a].path == t[x].path);
        if t[x].path == root_path() {
            // The pruned record is a child, so its parent is this root.
            assert(x != i);
            assert(path != root_path()) by {
                if path == root_path() {
                    assert(t[x].path == t[i].path);
                }
            }
            assert(t[i].parent == Some(root_path()));
            assert(rest[a].path == root_path());
            assert(known(rest, root_path()));
            let r = record_at(rest, root_path());
            assert(rest[r].path == root_path());
            let z = if r < i {
                r
            } else {
                r + 1
            };
            assert(t[z].path == t[x].path);
            assert(r == a);
            lemma_others(t[x].children, path);
            assert(p[a].children == others(t[x].children, path));
            assert forall|k: int| 0 <= k < p[a].children.len() implies (
            #[trigger] p[a].children[k]).len() == 1 && known(p, p[a].children[k]) by {
                let c = p[a].children[k];
                assert(t[x].children.contains(c));
                let m = choose|m: int| 0 <= m < t[x].children.len() && t[x].children[m] == c;
                assert(t[x].children[m].len() == 1 && known(t, t[x].children[m]));
                let w = record_at(t, c);
                assert(t[w].path == c);
                assert(w != i);
                let u = if w < i {
                    w
                } else {
                    w - 1
                };
                assert(rest[u] == t[w]);
                assert(p[u].path == c);
            }
        } else {
            // A child record changes only if it is someone's parent, and none is.
            if t[i].parent is Some {
                let q = t[i].parent->0;
                if known(rest, q) {
                    let r = record_at(rest, q);
                    assert(rest[r].path == q);
                    if path != root_path() {
                        assert(q == root_path());
                        assert(r != a);
                    }
                }
            }
            assert(p[a] == rest[a]);
        }
    }
    if p.len() > 0 {
        let x = record_at(t, root_path());
        assert(t.len() > 0);
        assert(t[x].path == root_path());
        if path == root_path() {
            assert(t[i].path == t[x].path);
            let y = if i == 0 {
                1
            } else {
                0int
            };
            assert(t[y].path != root_path()) by {
                if t[y].path == root_path() {
                    assert(t[y].path == t[i].path);
                }
            }
            assert(t[x].children.contains(t[y].path));
        } else {
            assert(x != i);
            let a = if x < i {
                x
            } else {
                x - 1
            };
            assert(rest[a] == t[x]);
            assert(p[a].path == root_path());
        }
        assert(known(p, root_path()));
    }
    if known(p, root_path()) {
        let g = record_at(p, root_path());
        assert(p[g].path == root_path());
        assert(rest[g].path == root_path());
        let x = if g < i {
            g
        } else {
            g + 1
        };
        assert(t[x].path == root_path());
        assert(known(t, root_path()));
        assert(record_at(t, root_path()) == x) by {
            let q = record_at(t, root_path());
            assert(t[q].path == t[x].path);
        }
        assert(path != root_path()) by {
            if path == root_path() {
                assert(t[x].path == t[i].path);
            }
        }
        assert(t[i].parent == Some(root_path()));
        assert(known(rest, root_path()));
        assert(record_at(rest, root_path()) == g) by {
            let q = record_at(rest, root_path());
            assert(rest[q].path == rest[g].path);
            assert(p[q].path == p[g].path);
        }
        lemma_others(t[x].children, path);
        assert(p[g].children == others(t[x].children, path));
        assert forall|a: int| 0 <= a < p.len() && (#[trigger] p[a]).path != root_path() implies
            p[g].children.contains(p[a].path) by {
            let y = if a < i {
                a
            } else {
                a + 1
            };
            assert(rest[a] == t[y]);
            assert(p[a].path == t[y].path);
            assert(t[x].children.contains(t[y].path));
            assert(t[y].path != path) by {
                if t[y].path == path {
                    assert(t[y].path == t[i].path);
                }
            }
        }
    }
}

/// Pruning the first child of the root leaves the root with the rest.
proof fn lemma_prune_first(t: Seq<ScopeView>)
    requires
        tree_ok(t),
        known(t, root_path()),
        t[record_at(t, root_path())].children.len() > 0,
    ensures
        ({
            let children = t[record_at(t, root_path())].children;
            let p = pruned(t, children[0]);
            &&& known(t, children[0])
            &&& known(p, root_path())
            &&& tree_ok(p) ==> p[record_at(p, root_path())].children == children.drop_first()
        }),
{
    let x = record_at(t, root_path());
    let children = t[x].children;
    let c = children[0];
    assert(c.len() == 1 && known(t, c));
    let i = record_at(t, c);
    assert(t[i].path == c);
    assert(i != x);
    let rest = t.remove(i);
    let a = if x < i {
        x
    } else {
        x - 1
    };
    assert(rest[a] == t[x]);
    assert(known(rest, root_path()));
    let r = record_at(rest, root_path());
    assert(rest[r].path == root_path());
    let z = if r < i {
        r
    } else {
        r + 1
    };
    assert(rest[r] == t[z]);
    assert(t[z].path == t[x].path);
    assert(r == a);
    let p = pruned(t, c);
    assert(p[a].path == root_path());
    assert(p[a].children == others(children, c));
    lemma_others_first(children);
    if tree_ok(p) {
        let g = record_at(p, root_path());
        assert(p[g].path == p[a].path);
    }
}

proof fn lemma_others_first(s: Seq<Seq<Seq<char>>>)
    requires
        s.no_duplicates(),
        s.len() > 0,
    ensures
        others(s, s[0]) == s.drop_first(),
    decreases s.len(),
{
    let t = s.drop_last();
    if s.len() == 1 {
        assert(others(t, s[0]) =~= Seq::empty());
        assert(s.drop_first() =~= Seq::empty());
    } else {
        assert(t[0] == s[0]);
        assert(s[s.len() - 1] != s[0]);
        lemma_others_first(t);
        assert(t.drop_first().push(s.last()) =~= s.drop_first());
    }
}

impl ScopeTree {
    /// What every operation keeps.
    pub open spec fn wf(&self) -> bool {
        tree_ok(self@)
    }

    /// A fresh tree with only the root scope, leased to run 0.
    pub fn new_root() -> (r: Self)
        ensures
            r.wf(),
            r@ == seq![root_record()],
    {
        let root = Scope {
            path: ScopePath(Vec::new()),
            owner: OwnerLease::Run(0),
            parent: None,
            children: Vec::new(),
        };
        let mut scopes: Vec<Scope> = Vec::new();
        scopes.push(root);
        let r = ScopeTree { scopes };
        proof {
            assert(r@[0].path =~= root_path());
            assert(r@[0].children =~= Seq::empty());
            assert(r@ =~= seq![root_record()]);
        }
        r
    }

    fn position(&self, path: &ScopePath) -> (r: Option<usize>)
        ensures
            match r {
                Some(i) => i < self.scopes.len() && self@[i as int].path == path@ && known(
                    self@,
                    path@,
                ) && (tree_ok(self@) ==> record_at(self@, path@) == i),
                None => !known(self@, path@),
            },
    {
        let mut i: usize = 0;
        while i < self.scopes.len()
            invariant
                i <= self.scopes.len(),
                forall|k: int| 0 <= k < i ==> (#[trigger] self@[k]).path != path@,
            decreases self.scopes.len() - i,
        {
            assert(self@[i as int] == self.scopes@[i as int]@);
            if self.scopes[i].path.same(path) {
                return Some(i);
            }
            i = i + 1;
        }
        None
    }

    /// The record of a path.
    pub fn scope(&self, path: &ScopePath) -> (r: Option<&Scope>)
        requires
            self.wf(),
        ensures
            match r {
                Some(s) => known(self@, path@) && s@ == self@[record_at(self@, path@)],
                None => !known(self@, path@),
            },
    {
        match self.position(path) {
            Some(i) => Some(&self.scopes[i]),
            None => None,
        }
    }

    /// Creates a child scope of the root with an owner lease. Only the root
    /// may have children, and their names are unique and not empty.
    pub fn create_child(&mut self, parent: &ScopePath, name: &str, owner: OwnerLease) -> (r: Result<
        ScopePath,
        ScopeError,
    >)
        requires
            old(self).wf(),
        ensures
            final(self).wf(),
            value::failure(r) == child_error(old(self)@, parent@, name@),
            match r {
                Ok(path) => path@ == child_path(name@) && final(self)@ == with_child(
                    old(self)@,
                    name@,
                    owner,
                ),
                Err(_) => final(self)@ == old(self)@,
            },
    {
        if parent.0.len() > 0 {
            assert(parent@.len() > 0);
            return Err(
                ScopeError::InvalidInput(
                    "nested scopes are MVP non-goals (R-26): only the root may have children".to_owned(),
                ),
            );
        }
        assert(parent@ =~= root_path());
        let r: usize = match self.position(parent) {
            Some(i) => i,
            None => {
                return Err(
                    ScopeError::InvalidInput(
                        "root scope is not present; a disposed root must be rebuilt with `new_root`".to_owned(),
                    ),
                );
            },
        };
        if name.is_empty() {
            return Err(ScopeError::InvalidInput("scope name must not be empty".to_owned()));
        }
        let ghost t = self@;
        let ghost children = t[r as int].children;
        assert(t[r as int] == self.scopes@[r as int]@);
        let mut k: usize = 0;
        while k < self.scopes[r].children.len()
            invariant
                r < self.scopes.len(),
                *self == *old(self),
                children == value::views(self.scopes@[r as int].children@),
                k <= children.len(),
                old(self).wf(),
                old(self)@ == t,
                parent@ == root_path(),
                name@.len() > 0,
                known(t, root_path()),
                record_at(t, root_path()) == r,
                t[r as int].children == children,
                forall|m: int|
                    0 <= m < k ==> !((#[trigger] children[m]).len() > 0 && children[m].last()
                        == name@),
            decreases children.len() - k,
        {
            let child = &self.scopes[r].children[k];
            assert(children[k as int] == child@);
            let n: usize = child.0.len();
            if n > 0 && text::same_text(child.0[n - 1].as_str(), name) {
                assert(children[k as int].last() == name@);
                assert(name_taken(children, name@));
                return Err(
                    ScopeError::DuplicateScope { parent: parent.copy(), name: name.to_owned() },
                );
            }
            k = k + 1;
        }
        let mut parts: Vec<String> = Vec::new();
        parts.push(name.to_owned());
        let path = ScopePath(parts);
        assert(path@ =~= child_path(name@));
        let mut listed = value::copy_vec(&self.scopes[r].children);
        listed.push(path.copy());
        let root = Scope {
            path: self.scopes[r].path.copy(),
            owner: self.scopes[r].owner,
            parent: value::copy_opt(&self.scopes[r].parent),
            children: listed,
        };
        self.scopes.set(r, root);
        let child = Scope {
            path: path.copy(),
            owner,
            parent: Some(parent.copy()),
            children: Vec::new(),
        };
        self.scopes.push(child);
        proof {
            assert(self@ =~= with_child(t, name@, owner));
            lemma_with_child_ok(t, name@, owner);
        }
        Ok(path)
    }

    /// Disposes a scope that has no children.
    fn dispose_childless(
        &mut self,
        path: &ScopePath,
        registry: &mut ContributionRegistry,
        force: bool,
    ) -> (r: Result<(), ScopeError>)
        requires
            old(self).wf(),
            old(registry).wf(),
            known(old(self)@, path@) ==> old(self)@[record_at(
                old(self)@,
                path@,
            )].children.len() == 0,
        ensures
            final(self).wf(),
            final(registry).wf(),
            dispose_one(old(self)@, old(registry)@, path@, force) == (Disposal {
                tree: final(self)@,
                registry: final(registry)@,
                refusal: value::failure(r),
            }),
    {
        let i: usize = match self.position(path) {
            Some(i) => i,
            None => {
                let shown = path.text();
                return Err(
                    ScopeError::InvalidInput(text::cat3("unknown scope `", shown.as_str(), "`")),
                );
            },
        };
        match registry.remove_scope(path, force) {
            Err(e) => {
                return Err(e);
            },
            Ok(_) => {},
        }
        let ghost t = self@;
        let gone = self.scopes.remove(i);
        let ghost rest = self@;
        proof {
            assert(gone@ == t[i as int]);
            assert(rest =~= t.remove(i as int));
            lemma_pruned_ok(t, path@);
        }
        match &gone.parent {
            Some(p) => match self.position(p) {
                Some(r) => {
                    proof {
                        assert(record_at(rest, p@) == r) by {
                            let q = record_at(rest, p@);
                            assert(rest[q].path == p@ && rest[r as int].path == p@);
                            let x = if q < i {
                                q
                            } else {
                                q + 1
                            };
                            let y = if r < i {
                                r as int
                            } else {
                                r + 1
                            };
                            assert(t[x].path == t[y].path);
                        }
                        assert(rest[r as int] == self.scopes@[r as int]@);
                    }
                    let mut listed: Vec<ScopePath> = Vec::new();
                    let ghost all = rest[r as int].children;
                    let mut k: usize = 0;
                    assert(all.take(0) =~= Seq::empty());
                    while k < self.scopes[r].children.len()
                        invariant
                            r < self.scopes.len(),
                            self@ == rest,
                            all == value::views(self.scopes@[r as int].children@),
                            k <= all.len(),
                            value::views(listed@) == others(all.take(k as int), path@),
                        decreases all.len() - k,
                    {
                        let c = &self.scopes[r].children[k];
                        proof {
                            assert(all.take(k + 1).drop_last() =~= all.take(k as int));
                            assert(all.take(k + 1).last() == c@);
                        }
                        if !c.same(path) {
                            listed.push(c.copy());
                        }
                        k = k + 1;
                    }
                    assert(all.take(k as int) =~= all);
                    let parent = Scope {
                        path: self.scopes[r].path.copy(),
                        owner: self.scopes[r].owner,
                        parent: value::copy_opt(&self.scopes[r].parent),
                        children: listed,
                    };
                    self.scopes.set(r, parent);
                    assert(self@ =~= pruned(t, path@));
                },
                None => {},
            },
            None => {},
        }
        Ok(())
    }

    /// Disposes a scope: its children first, then its contributions, then its
    /// record. A refusal stops the disposal where it stands.
    pub fn dispose_scope(
        &mut self,
        path: &ScopePath,
        registry: &mut ContributionRegistry,
        force: bool,
    ) -> (r: Result<(), ScopeError>)
        requires
            old(self).wf(),
            old(registry).wf(),
        ensures
            final(self).wf(),
            final(registry).wf(),
            disposal(old(self)@, old(registry)@, path@, force) == (Disposal {
                tree: final(self)@,
                registry: final(registry)@,
                refusal: value::failure(r),
            }),
    {
        let ghost t = self@;
        let ghost v = registry@;
        let i: usize = match self.position(path) {
            Some(i) => i,
            None => {
                let shown = path.text();
                return Err(
                    ScopeError::InvalidInput(text::cat3("unknown scope `", shown.as_str(), "`")),
                );
            },
        };
        let children = value::copy_vec(&self.scopes[i].children);
        let ghost list = t[i as int].children;
        assert(value::views(children@) == list);
        let mut k: usize = 0;
        assert(list.take(0) =~= Seq::empty());
        assert(list.skip(0) =~= list);
        while k < children.len()
            invariant
                k <= children.len(),
                list == value::views(children@),
                self.wf(),
                registry.wf(),
                known(t, path@),
                tree_ok(t),
                t[record_at(t, path@)].children == list,
                list.len() > 0 ==> path@ == root_path(),
                known(self@, path@),
                self@[record_at(self@, path@)].children == list.skip(k as int),
                t == old(self)@,
                v == old(registry)@,
                dispose_each(t, v, list.take(k as int), force) == (Disposal {
                    tree: self@,
                    registry: registry@,
                    refusal: None,
                }),
            decreases children.len() - k,
        {
            let c = &children[k];
            proof {
                assert(list[k as int] == c@);
                assert(list.take(k + 1).drop_last() =~= list.take(k as int));
                assert(list.take(k + 1).last() == c@);
                assert(list.skip(k as int)[0] == c@);
                lemma_prune_first(self@);
                assert(self@[record_at(self@, c@)].path == c@);
                assert(list.skip(k as int).drop_first() =~= list.skip(k + 1));
            }
            match self.dispose_childless(c, registry, force) {
                Err(e) => {
                    proof {
                        lemma_dispose_each_stays(t, v, list, force, k + 1);
                    }
                    return Err(e);
                },
                Ok(_) => {},
            }
            k = k + 1;
        }
        assert(list.take(k as int) =~= list);
        self.dispose_childless(path, registry, force)
    }

    /// All scope records, ordered by displayed path.
    pub fn scopes(&self) -> (r: Vec<Scope>)
        ensures
            value::views(r@) == order::ordered(self@, path_order()),
    {
        let ghost all = self@;
        let mut keyed: Vec<Keyed<Scope>> = Vec::new();
        let mut i: usize = 0;
        assert(order::item_views(keyed@) =~= all.take(0));
        while i < self.scopes.len()
            invariant
                i <= self.scopes.len(),
                all == value::views(self.scopes@),
                order::item_views(keyed@) == all.take(i as int),
                forall|k: int|
                    0 <= k < keyed.len() ==> value::views((#[trigger] keyed@[k]).key@)
                        == path_order()(keyed@[k].item@),
            decreases self.scopes.len() - i,
        {
            let item = self.scopes[i].copy();
            let mut key: Vec<String> = Vec::new();
            key.push(item.path.text());
            let ghost shown = item@;
            let ghost before = order::item_views(keyed@);
            keyed.push(Keyed { key, item });
            proof {
                assert(order::item_views(keyed@) =~= before.push(shown));
                assert(all.take(i + 1) =~= all.take(i as int).push(all[i as int]));
            }
            i = i + 1;
        }
        assert(all.take(i as int) =~= all);
        order::order_items(keyed, Ghost(path_order()))
    }
}

pub open spec fn path_order() -> spec_fn(ScopeView) -> Seq<Seq<char>> {
    |s: ScopeView| Seq::<Seq<char>>::empty().push(services::scope_text(s.path))
}

proof fn lemma_with_child_ok(t: Seq<ScopeView>, name: Seq<char>, owner: OwnerLease)
    requires
        tree_ok(t),
        known(t, root_path()),
        name.len() > 0,
        !name_taken(t[record_at(t, root_path())].children, name),
    ensures
        tree_ok(with_child(t, name, owner)),
{
    let x = record_at(t, root_path());
    let children = t[x].children;
    let path = child_path(name);
    let w = with_child(t, name, owner);
    assert(t[x].path == root_path());
    assert(path.len() == 1 && path.last() == name);
    assert(!children.contains(path)) by {
        if children.contains(path) {
            let k = choose|k: int| 0 <= k < children.len() && children[k] == path;
            assert(children[k].len() > 0 && children[k].last() == name);
        }
    }
    assert(!known(t, path)) by {
        if known(t, path) {
            let i = record_at(t, path);
            assert(t[i].path == path);
            assert(children.contains(t[i].path));
        }
    }
    let n = t.len() as int;
    assert(w[n].path == path);
    assert(w[x].path == root_path());
    assert forall|i: int| 0 <= i < n implies (#[trigger] w[i]).path == t[i].path by {}
    assert forall|i: int, j: int|
        0 <= i < w.len() && 0 <= j < w.len() && (#[trigger] w[i]).path == (
        #[trigger] w[j]).path implies i == j by {
        if i < n && j < n {
            assert(t[i].path == t[j].path);
        } else if i < n {
            assert(t[i].path == path);
        } else if j < n {
            assert(t[j].path == path);
        }
    }
    assert forall|q: Seq<Seq<char>>| #[trigger] known(t, q) implies known(w, q) by {
        let i = record_at(t, q);
        assert(t[i].path == q);
        assert(w[i].path == q);
    }
    assert forall|i: int| 0 <= i < w.len() implies if (#[trigger] w[i]).path == root_path() {
        &&& w[i].parent is None
        &&& w[i].children.no_duplicates()
        &&& forall|k: int|
            0 <= k < w[i].children.len() ==> (#[trigger] w[i].children[k]).len() == 1 && known(
                w,
                w[i].children[k],
            )
    } else {
        &&& w[i].path.len() == 1
        &&& w[i].path[0].len() > 0
        &&& w[i].parent == Some(root_path())
        &&& w[i].children.len() == 0
    } by {
        if i < n && t[i].path == root_path() {
            assert(t[i].path == t[x].path);
            assert(i == x);
            let grown = w[i].children;
            assert(grown == children.push(path));
            assert forall|k: int| 0 <= k < grown.len() implies (#[trigger] grown[k]).len() == 1
                && known(w, grown[k]) by {
                if k < children.len() {
                    assert(grown[k] == children[k]);
                    assert(t[x].children[k].len() == 1 && known(t, t[x].children[k]));
                } else {
                    assert(w[n].path == path);
                }
            }
        } else if i < n {
            assert(w[i] == t[i]);
        }
    }
    assert(record_at(w, root_path()) == x) by {
        let q = record_at(w, root_path());
        assert(w[q].path == w[x].path);
    }
    assert forall|i: int| 0 <= i < w.len() && (#[trigger] w[i]).path != root_path() implies w[x].children.contains(
        w[i].path,
    ) by {
        let grown = children.push(path);
        if i < n {
            assert(children.contains(t[i].path));
            let k = choose|k: int| 0 <= k < children.len() && children[k] == t[i].path;
            assert(grown[k] == t[i].path);
        } else {
            assert(grown[children.len() as int] == path);
        }
    }
}

} // verus!
