//! What holds of the service graph across operations.
use vstd::prelude::*;
use crate::graph;
use crate::order;
use crate::services;
use crate::services::{DependencyView, EntryView, KeyView, ProviderView, ServiceErrorView};

verus! {

/// A key lives where its one publication stands.
pub proof fn lemma_place_unique(s: Seq<EntryView>, i: int)
    requires
        services::unique_keys(s),
        0 <= i < s.len(),
    ensures
        services::holds(s, s[i].key),
        services::place_of(s, s[i].key) == i,
{
}

/// What was published resolves, for the owning scope and every scope below
/// it, at exactly its version, to its provider.
pub proof fn law_published_resolves(s: Seq<EntryView>, e: EntryView, caller: Seq<Seq<char>>)
    requires
        services::unique_keys(s),
        !services::holds(s, e.key),
        services::encloses(e.key.scope, caller),
    ensures
        services::resolve_error(s.push(e), e.key, e.provider.contract.version, caller) is None,
        services::holder_of(s.push(e), e.key) == e.provider,
{
    lemma_push_unique(s, e);
    lemma_place_unique(s.push(e), s.len() as int);
}

/// Publishing one key changes no other key's resolution.
pub proof fn law_publish_keeps_others(
    s: Seq<EntryView>,
    e: EntryView,
    key: KeyView,
    version: u32,
    caller: Seq<Seq<char>>,
)
    requires
        services::unique_keys(s),
        !services::holds(s, e.key),
        key != e.key,
    ensures
        services::resolve_error(s.push(e), key, version, caller) == services::resolve_error(
            s,
            key,
            version,
            caller,
        ),
        services::holds(s, key) ==> services::holder_of(s.push(e), key) == services::holder_of(
            s,
            key,
        ),
{
    lemma_push_unique(s, e);
    if services::holds(s, key) {
        let i = services::place_of(s, key);
        assert(s.push(e)[i] == s[i]);
        lemma_place_unique(s.push(e), i);
    } else {
        if services::holds(s.push(e), key) {
            let i = services::place_of(s.push(e), key);
            assert(s.push(e)[i].key == key);
            if i < s.len() {
                assert(s[i].key == key);
            }
        }
    }
}

pub proof fn lemma_push_unique(s: Seq<EntryView>, e: EntryView)
    requires
        services::unique_keys(s),
        !services::holds(s, e.key),
    ensures
        services::unique_keys(s.push(e)),
{
    let t = s.push(e);
    assert forall|i: int, j: int|
        0 <= i < t.len() && 0 <= j < t.len() && (#[trigger] t[i]).key == (#[trigger] t[j]).key
        implies i == j by {
        if i < s.len() {
            assert(t[i] == s[i]);
        }
        if j < s.len() {
            assert(t[j] == s[j]);
        }
    }
}

/// Taking out what was just published gives back what was there before.
pub proof fn law_remove_undoes_publish(s: Seq<EntryView>, e: EntryView)
    requires
        services::unique_keys(s),
        !services::holds(s, e.key),
    ensures
        services::without(s.push(e), e.key) == s,
{
    lemma_push_unique(s, e);
    lemma_place_unique(s.push(e), s.len() as int);
    assert(s.push(e).remove(s.len() as int) =~= s);
}

/// A replacement keeps every dependency edge.
pub proof fn law_replacement_keeps_edges(
    s: Seq<EntryView>,
    key: KeyView,
    provider: ProviderView,
    of: KeyView,
)
    requires
        services::unique_keys(s),
        services::holds(s, key),
    ensures
        services::dependents(services::replaced(s, key, provider), of) == services::dependents(
            s,
            of,
        ),
        services::graph_of(services::replaced(s, key, provider)) == services::graph_of(s),
{
    let t = services::replaced(s, key, provider);
    assert(t.len() == s.len());
    assert forall|i: int| 0 <= i < s.len() implies (#[trigger] t[i]).key == s[i].key && t[i].deps
        == s[i].deps by {}
    lemma_same_edges(s, t, of);
    assert(services::graph_of(t) =~= services::graph_of(s));
}

proof fn lemma_same_edges(s: Seq<EntryView>, t: Seq<EntryView>, of: KeyView)
    requires
        s.len() == t.len(),
        forall|i: int|
            0 <= i < s.len() ==> (#[trigger] t[i]).key == s[i].key && t[i].deps == s[i].deps,
    ensures
        services::dependent_edges(t, of) == services::dependent_edges(s, of),
    decreases s.len(),
{
    if s.len() > 0 {
        assert forall|i: int| 0 <= i < s.len() - 1 implies (#[trigger] t.drop_last()[i]).key
            == s.drop_last()[i].key && t.drop_last()[i].deps == s.drop_last()[i].deps by {
            assert(t[i].key == s[i].key);
        }
        lemma_same_edges(s.drop_last(), t.drop_last(), of);
    }
}

/// `d` is an edge of some publication to `key`.
pub open spec fn declares(s: Seq<EntryView>, key: KeyView, d: DependencyView) -> bool {
    exists|i: int, j: int|
        0 <= i < s.len() && 0 <= j < s[i].deps.len() && s[i].key == d.key
            && (#[trigger] s[i].deps[j]).key == key && s[i].deps[j].required_version
            == d.required_version
}

proof fn lemma_edges_to(dependent: KeyView, deps: Seq<DependencyView>, key: KeyView, d: DependencyView)
    ensures
        services::edges_to(dependent, deps, key).contains(d) <==> d.key == dependent && exists|
            j: int,
        |
            0 <= j < deps.len() && (#[trigger] deps[j]).key == key && deps[j].required_version
                == d.required_version,
    decreases deps.len(),
{
    let all = services::edges_to(dependent, deps, key);
    if deps.len() > 0 {
        let rest = services::edges_to(dependent, deps.drop_last(), key);
        lemma_edges_to(dependent, deps.drop_last(), key, d);
        if all.contains(d) {
            let k = choose|k: int| 0 <= k < all.len() && all[k] == d;
            if k < rest.len() {
                assert(rest[k] == d);
                let j = choose|j: int|
                    0 <= j < deps.len() - 1 && (#[trigger] deps.drop_last()[j]).key == key
                        && deps.drop_last()[j].required_version == d.required_version;
                assert(deps[j] == deps.drop_last()[j]);
            } else {
                assert(deps[deps.len() - 1].key == key);
            }
        }
        if d.key == dependent && exists|j: int|
            0 <= j < deps.len() && (#[trigger] deps[j]).key == key && deps[j].required_version
                == d.required_version {
            let j = choose|j: int|
                0 <= j < deps.len() && (#[trigger] deps[j]).key == key && deps[j].required_version
                    == d.required_version;
            if j < deps.len() - 1 {
                assert(deps.drop_last()[j] == deps[j]);
                assert(rest.contains(d));
                let k = choose|k: int| 0 <= k < rest.len() && rest[k] == d;
                assert(all[k] == d);
            } else {
                assert(all[all.len() - 1] == d);
            }
        }
    }
}

proof fn lemma_dependent_edges(s: Seq<EntryView>, key: KeyView, d: DependencyView)
    ensures
        services::dependent_edges(s, key).contains(d) <==> declares(s, key, d),
    decreases s.len(),
{
    let all = services::dependent_edges(s, key);
    if s.len() > 0 {
        let t = s.drop_last();
        let rest = services::dependent_edges(t, key);
        let own = services::edges_to(s.last().key, s.last().deps, key);
        lemma_dependent_edges(t, key, d);
        lemma_edges_to(s.last().key, s.last().deps, key, d);
        if all.contains(d) {
            let k = choose|k: int| 0 <= k < all.len() && all[k] == d;
            if k < rest.len() {
                assert(rest[k] == d);
                let (i, j) = choose|i: int, j: int|
                    0 <= i < t.len() && 0 <= j < t[i].deps.len() && t[i].key == d.key
                        && (#[trigger] t[i].deps[j]).key == key && t[i].deps[j].required_version
                        == d.required_version;
                assert(s[i].deps[j] == t[i].deps[j]);
            } else {
                assert(own[k - rest.len()] == d);
                let j = choose|j: int|
                    0 <= j < s.last().deps.len() && (#[trigger] s.last().deps[j]).key == key
                        && s.last().deps[j].required_version == d.required_version;
                assert(s[s.len() - 1].deps[j].key == key);
            }
        }
        if declares(s, key, d) {
            let (i, j) = choose|i: int, j: int|
                0 <= i < s.len() && 0 <= j < s[i].deps.len() && s[i].key == d.key
                    && (#[trigger] s[i].deps[j]).key == key && s[i].deps[j].required_version
                    == d.required_version;
            if i < t.len() {
                assert(t[i].deps[j] == s[i].deps[j]);
                assert(rest.contains(d));
                let k = choose|k: int| 0 <= k < rest.len() && rest[k] == d;
                assert(all[k] == d);
            } else {
                assert(own.contains(d));
                let k = choose|k: int| 0 <= k < own.len() && own[k] == d;
                assert(all[rest.len() + k] == d);
            }
        }
    }
}

/// The dependents of a key are exactly the declarations that name it, in the
/// order of the declaring keys.
pub proof fn law_dependents_are_declarations(s: Seq<EntryView>, key: KeyView, d: DependencyView)
    ensures
        services::dependents(s, key).contains(d) <==> declares(s, key, d),
        order::is_ordered(services::dependents(s, key), services::dependency_order()),
{
    lemma_dependent_edges(s, key, d);
    let edges = services::dependent_edges(s, key);
    order::lemma_ordered_contains(edges, services::dependency_order(), d);
    order::lemma_ordered(edges, services::dependency_order());
}

/// After a removal that was not refused, no publication depends on the key.
pub proof fn law_removal_strands_nobody(s: Seq<EntryView>, key: KeyView, module_id: Seq<char>)
    requires
        services::unique_keys(s),
        services::remove_error(s, key, module_id) is None,
    ensures
        forall|i: int, j: int|
            0 <= i < services::without(s, key).len() && 0 <= j < services::without(
                s,
                key,
            )[i].deps.len() ==> (#[trigger] services::without(s, key)[i].deps[j]).key != key,
{
    let t = services::without(s, key);
    let p = services::place_of(s, key);
    assert forall|i: int, j: int| 0 <= i < t.len() && 0 <= j < t[i].deps.len() implies (
    #[trigger] t[i].deps[j]).key != key by {
        if t[i].deps[j].key == key {
            let k = if i < p {
                i
            } else {
                i + 1
            };
            assert(s[k] == t[i]);
            assert(s[k].deps[j].key == key);
            let d = DependencyView {
                key: s[k].key,
                required_version: s[k].deps[j].required_version,
            };
            assert(declares(s, key, d));
            law_dependents_are_declarations(s, key, d);
            assert(services::dependents(s, key).contains(d));
        }
    }
}

/// A service that declares itself as a dependency is always refused.
pub proof fn law_self_dependency_is_refused(
    s: Seq<EntryView>,
    deps: Seq<DependencyView>,
    key: KeyView,
    j: int,
    answer: Option<ServiceErrorView>,
)
    requires
        services::unique_keys(s),
        0 <= j < deps.len(),
        deps[j].key == key,
        services::checks(s, deps, key, answer),
    ensures
        answer is Some,
{
    if answer is None {
        let g = services::graph_with(s, key, deps);
        let walk = seq![key, key];
        let i = if services::holds(s, key) {
            services::place_of(s, key)
        } else {
            s.len() as int
        };
        let own = if services::holds(s, key) {
            services::graph_of(s)[i].needs.len() as int
        } else {
            0int
        };
        assert(services::keys_of(deps)[j] == key);
        assert(g[i].key == key);
        assert(g[i].needs[own + j] == key);
        assert(services::edge(g, walk[0], walk[1]));
        assert forall|k: int| 0 <= k < walk.len() - 1 implies services::edge(
            g,
            #[trigger] walk[k],
            walk[k + 1],
        ) by {
            assert(k == 0);
        }
        assert(services::is_cycle(g, walk));
        services::lemma_layered_has_no_cycle(g, walk);
    }
}

/// The dependency check is refused with a cycle exactly when the dependencies
/// are all in reach and the extended graph cannot be layered.
pub proof fn law_cycle_refusal_is_exact(
    s: Seq<EntryView>,
    deps: Seq<DependencyView>,
    key: KeyView,
    answer: Option<ServiceErrorView>,
)
    requires
        services::reach_error(deps, key.scope) is None,
        services::checks(s, deps, key, answer),
    ensures
        answer is None <==> services::layered(services::graph_with(s, key, deps)),
{
    let g = services::graph_with(s, key, deps);
    if answer is Some && services::layered(g) {
        let path = answer->0->DependencyCycle_path;
        services::lemma_reported_is_a_cycle(g, path);
        let walk = choose|walk: Seq<KeyView>|
            #[trigger] services::is_cycle(g, walk) && path == walk.map_values(
                |k: KeyView| services::key_text(k),
            );
        services::lemma_layered_has_no_cycle(g, walk);
    }
}

/// The dependency check has one answer: the same cycle is reported of the same
/// publications.
pub proof fn law_the_reported_cycle_is_one(
    s: Seq<EntryView>,
    deps: Seq<DependencyView>,
    key: KeyView,
    a: Option<ServiceErrorView>,
    b: Option<ServiceErrorView>,
)
    requires
        services::checks(s, deps, key, a),
        services::checks(s, deps, key, b),
    ensures
        a == b,
{
    if services::reach_error(deps, key.scope) is None {
        law_cycle_refusal_is_exact(s, deps, key, a);
        law_cycle_refusal_is_exact(s, deps, key, b);
        if a is Some {
            let g = order::ordered(
                services::graph_with(s, key, deps),
                services::node_order(),
            );
            let step = services::needs_steps(g);
            let x = choose|x: Seq<int>|
                #[trigger] graph::first_loop(step, x) && a->0->DependencyCycle_path
                    == x.map_values(|n: int| services::key_text(g[n].key));
            let y = choose|y: Seq<int>|
                #[trigger] graph::first_loop(step, y) && b->0->DependencyCycle_path
                    == y.map_values(|n: int| services::key_text(g[n].key));
            graph::lemma_first_loop_is_one(step, x, y);
        }
    }
}

/// Dependencies point only to the dependent's scope and its ancestors, or
/// they are refused.
pub proof fn law_reach_is_upward(deps: Seq<DependencyView>, scope: Seq<Seq<char>>)
    ensures
        services::reach_error(deps, scope) is None <==> forall|i: int|
            0 <= i < deps.len() ==> services::encloses((#[trigger] deps[i]).key.scope, scope),
{
    services::lemma_reach(deps, scope);
}

/// In a registry that was built by publishing, every dependency points to the
/// dependent's scope or to one above it: whatever a publication leans on, the
/// scope it stands in lies at or below it.
pub proof fn law_published_dependencies_point_up(s: Seq<EntryView>, i: int, k: int)
    requires
        services::well_formed(s),
        0 <= i < s.len(),
        0 <= k < s[i].deps.len(),
    ensures
        services::encloses(s[i].deps[k].key.scope, s[i].key.scope),
{
    assert(services::upward(s[i]));
}

/// A scope encloses itself and everything below it, the root encloses every
/// scope, and no scope encloses one that is shorter or starts otherwise.
pub proof fn law_scopes_enclose_what_is_below(
    scope: Seq<Seq<char>>,
    below: Seq<Seq<char>>,
    other: Seq<Seq<char>>,
    i: int,
)
    ensures
        services::encloses(scope, scope + below),
        services::encloses(scope, scope),
        services::encloses(Seq::empty(), scope),
        other.len() < scope.len() ==> !services::encloses(scope, other),
        0 <= i < scope.len() && i < other.len() && scope[i] != other[i] ==> !services::encloses(
            scope,
            other,
        ),
{
    assert((scope + below).subrange(0, scope.len() as int) =~= scope);
    assert(scope.subrange(0, scope.len() as int) =~= scope);
    assert(scope.subrange(0, 0) =~= Seq::<Seq<char>>::empty());
    if services::encloses(scope, other) && 0 <= i < scope.len() && i < other.len() {
        assert(other.subrange(0, scope.len() as int)[i] == other[i]);
    }
}

/// A path is displayed part by part, each after a slash.
pub proof fn law_paths_are_displayed_part_by_part(path: Seq<Seq<char>>, part: Seq<char>, name: Seq<char>)
    ensures
        services::scope_text(Seq::empty()) == "/"@,
        services::scope_text(seq![part]) == "/"@ + part,
        path.len() > 0 ==> services::scope_text(path.push(part)) == services::scope_text(path)
            + "/"@ + part,
        services::key_text(KeyView { scope: path, name }) == services::scope_text(path) + "/"@
            + name,
{
    assert(services::scope_text(Seq::empty()) =~= "/"@);
    assert(path.push(part).drop_last() =~= path);
    if path.len() > 0 {
        assert(services::scope_text(path.push(part)) =~= services::scope_text(path) + "/"@ + part);
    }
}

/// A key resolves exactly for callers in its scope or below it, where it is
/// published at exactly the version that is asked for; the error says which of
/// these is missing.
pub proof fn law_resolution_is_exact(
    s: Seq<EntryView>,
    i: int,
    key: KeyView,
    version: u32,
    caller: Seq<Seq<char>>,
)
    requires
        services::unique_keys(s),
        0 <= i < s.len(),
    ensures
        ({
            let e = services::resolve_error(s, s[i].key, version, caller);
            &&& e is None <==> services::encloses(s[i].key.scope, caller)
                && s[i].provider.contract.version == version
            &&& !services::encloses(s[i].key.scope, caller) ==> e is Some && e->0 is ScopeViolation
            &&& (services::encloses(s[i].key.scope, caller) && s[i].provider.contract.version
                != version) ==> e == Some(
                ServiceErrorView::VersionMismatch {
                    key: s[i].key,
                    required_version: version,
                    actual_version: s[i].provider.contract.version,
                },
            )
            &&& services::holder_of(s, s[i].key) == s[i].provider
            &&& services::deps_of(s, s[i].key) == s[i].deps
        }),
        (!services::holds(s, key) && services::encloses(key.scope, caller))
            ==> services::resolve_error(s, key, version, caller) == Some(
            ServiceErrorView::Unresolved { key, required_version: version },
        ),
        !services::holds(s, key) ==> services::deps_of(s, key) == Seq::<DependencyView>::empty(),
{
    lemma_place_unique(s, i);
}

/// A provider is published exactly under a free key of its own name, and a
/// taken key is refused with its holder.
pub proof fn law_keys_are_published_once(s: Seq<EntryView>, key: KeyView, provider: ProviderView)
    ensures
        services::publish_error(s, key, provider) is None <==> key.name == provider.contract.name
            && !services::holds(s, key),
        (key.name == provider.contract.name && services::holds(s, key)) ==> services::publish_error(
            s,
            key,
            provider,
        ) == Some(
            ServiceErrorView::Conflict {
                key,
                holder: services::holder_of(s, key),
                challenger: provider,
            },
        ),
        key.name != provider.contract.name ==> services::publish_error(s, key, provider)->0
            is InvalidInput,
{
}

/// A key is handed over exactly if the intent proposes the provider that is
/// published and names the holder by module and generation; what the other
/// keys hold stays, and so do the dependencies.
pub proof fn law_handovers_name_the_holder(
    s: Seq<EntryView>,
    i: int,
    j: int,
    provider: ProviderView,
    current: ProviderView,
    proposed: ProviderView,
)
    requires
        services::unique_keys(s),
        0 <= i < s.len(),
        0 <= j < s.len(),
    ensures
        services::replace_error(s, s[i].key, provider, current, proposed) is None <==> s[i].key.name
            == provider.contract.name && proposed == provider && s[i].provider.module_id
            == current.module_id && s[i].provider.generation == current.generation,
        services::replaced(s, s[i].key, provider).len() == s.len(),
        services::replaced(s, s[i].key, provider)[i].key == s[i].key,
        services::replaced(s, s[i].key, provider)[i].provider == provider,
        services::replaced(s, s[i].key, provider)[i].deps == s[i].deps,
        j != i ==> services::replaced(s, s[i].key, provider)[j] == s[j],
{
    lemma_place_unique(s, i);
}

/// A key that nobody holds cannot be handed over.
pub proof fn law_free_keys_are_not_handed_over(
    s: Seq<EntryView>,
    key: KeyView,
    provider: ProviderView,
    current: ProviderView,
    proposed: ProviderView,
)
    requires
        !services::holds(s, key),
    ensures
        services::replace_error(s, key, provider, current, proposed) is Some,
        services::replace_error(s, key, provider, current, proposed)->0 is InvalidInput,
{
}

/// A publication is removed exactly by its own module, and only where no
/// publication declares a dependency on it.
pub proof fn law_removal_is_for_the_owner(s: Seq<EntryView>, i: int, module_id: Seq<char>)
    requires
        services::unique_keys(s),
        0 <= i < s.len(),
    ensures
        services::remove_error(s, s[i].key, module_id) is None <==> s[i].provider.module_id
            == module_id && forall|k: int, j: int|
            0 <= k < s.len() && 0 <= j < s[k].deps.len() ==> (#[trigger] s[k].deps[j]).key
                != s[i].key,
        s[i].provider.module_id != module_id ==> services::remove_error(s, s[i].key, module_id)
            == Some(ServiceErrorView::NotOwner { key: s[i].key, module_id }),
{
    lemma_place_unique(s, i);
    let key = s[i].key;
    let all = services::dependents(s, key);
    if all.len() > 0 {
        law_dependents_are_declarations(s, key, all[0]);
        assert(all.contains(all[0]));
        let (k, j) = choose|k: int, j: int|
            0 <= k < s.len() && 0 <= j < s[k].deps.len() && s[k].key == all[0].key && (
            #[trigger] s[k].deps[j]).key == key && s[k].deps[j].required_version
                == all[0].required_version;
        assert(s[k].deps[j].key == key);
    } else {
        assert forall|k: int, j: int| 0 <= k < s.len() && 0 <= j < s[k].deps.len() implies (
        #[trigger] s[k].deps[j]).key != key by {
            if s[k].deps[j].key == key {
                let d = DependencyView {
                    key: s[k].key,
                    required_version: s[k].deps[j].required_version,
                };
                assert(declares(s, key, d));
                law_dependents_are_declarations(s, key, d);
            }
        }
    }
}

/// A removal takes the key's publication and leaves every other in its order.
pub proof fn law_removal_takes_one(s: Seq<EntryView>, i: int, key: KeyView)
    requires
        services::unique_keys(s),
        0 <= i < s.len(),
    ensures
        services::without(s, s[i].key) == s.take(i) + s.skip(i + 1),
        !services::holds(s, key) ==> services::without(s, key) == s,
{
    lemma_place_unique(s, i);
    assert(services::without(s, s[i].key) =~= s.take(i) + s.skip(i + 1));
}

/// Marked publications are taken out, each as it stands, and the others stay
/// in order.
pub proof fn law_marks_split_the_publications(
    s: Seq<EntryView>,
    e: EntryView,
    marks: Seq<bool>,
    want: bool,
)
    ensures
        services::pick(Seq::empty(), marks, want) == Seq::<EntryView>::empty(),
        marks[s.len() as int] == want ==> services::pick(s.push(e), marks, want) == services::pick(
            s,
            marks,
            want,
        ).push(e),
        marks[s.len() as int] != want ==> services::pick(s.push(e), marks, want) == services::pick(
            s,
            marks,
            want,
        ),
{
    assert(s.push(e).drop_last() =~= s);
}

/// With a scope fall its own publications, and whatever depends on one that
/// falls.
pub proof fn law_dependents_fall_with_their_scope(
    s: Seq<EntryView>,
    scope: Seq<Seq<char>>,
    i: int,
    j: int,
    k: int,
)
    requires
        0 <= i < s.len(),
        0 <= j < s[i].deps.len(),
        0 <= k < s.len(),
        s[i].deps[j].key == s[k].key,
    ensures
        s[k].key.scope == scope ==> services::falls_with(s, scope, s[k].key),
        services::falls_with(s, scope, s[k].key) ==> services::falls_with(s, scope, s[i].key),
        services::falling(s, scope).len() == s.len(),
        services::falling(s, scope)[k] <==> services::falls_with(s, scope, s[k].key),
{
    if s[k].key.scope == scope {
        let chain = seq![s[k].key];
        assert(services::holds(s, s[k].key));
        assert(services::is_chain(s, scope, chain));
        assert(chain.last() == s[k].key);
    }
    if services::falls_with(s, scope, s[k].key) {
        let chain = choose|chain: Seq<KeyView>| #[trigger]
            services::is_chain(s, scope, chain) && chain.last() == s[k].key;
        let longer = chain.push(s[i].key);
        let g = services::graph_of(s);
        assert(g[i].key == s[i].key);
        assert(g[i].needs[j] == s[i].deps[j].key);
        assert(services::edge(g, s[i].key, s[k].key));
        assert forall|x: int| 0 <= x < longer.len() - 1 implies services::edge(
            g,
            longer[x + 1],
            #[trigger] longer[x],
        ) by {
            if x < chain.len() - 1 {
                assert(longer[x] == chain[x]);
                assert(longer[x + 1] == chain[x + 1]);
            } else {
                assert(longer[x] == chain.last());
            }
        }
        assert(longer[0] == chain[0]);
        assert(services::is_chain(s, scope, longer));
        assert(longer.last() == s[i].key);
    }
}

} // verus!
