//! The replacement policy: which dependents of a replaced service keep
//! running and which restart.
use vstd::prelude::*;
use crate::services;
use crate::services::{
    DependencyView, EntryView, KeyView, ServiceDependency, ServiceError, ServiceErrorView,
    ServiceKey, ServiceProvider, ServiceRegistry,
};
use crate::value;
use crate::value::Value;

verus! {

broadcast use value::group_views;

/// Which direct dependents keep running (`rebind`) and which restart inside
/// the replacement transaction (`restart`).
#[derive(Debug, Clone, PartialEq, Eq)]
pub struct ReplacementPlan {
    pub rebind: Vec<ServiceKey>,
    pub restart: Vec<ServiceKey>,
}

/// The keys of the edges that require `version`, or of those that do not.
pub open spec fn keys_requiring(
    edges: Seq<DependencyView>,
    version: u32,
    equal: bool,
) -> Seq<KeyView>
    decreases edges.len(),
{
    if edges.len() == 0 {
        Seq::empty()
    } else {
        let rest = keys_requiring(edges.drop_last(), version, equal);
        if (edges.last().required_version == version) == equal {
            rest.push(edges.last().key)
        } else {
            rest
        }
    }
}

/// `d` is published at exactly the version it is required at.
pub open spec fn met(s: Seq<EntryView>, d: DependencyView) -> bool {
    services::holds(s, d.key) && services::holder_of(s, d.key).contract.version
        == d.required_version
}

/// The first of `deps`, other than the replaced service, that is not met.
pub open spec fn first_unmet(
    s: Seq<EntryView>,
    replaced: KeyView,
    deps: Seq<DependencyView>,
) -> Option<DependencyView>
    decreases deps.len(),
{
    if deps.len() == 0 {
        None
    } else if first_unmet(s, replaced, deps.drop_last()) is Some {
        first_unmet(s, replaced, deps.drop_last())
    } else if deps.last().key != replaced && !met(s, deps.last()) {
        Some(deps.last())
    } else {
        None
    }
}

/// Why the dependents in `restart` cannot all restart: the first that has a
/// remaining dependency which is not met.
pub open spec fn restart_error(
    s: Seq<EntryView>,
    replaced: KeyView,
    restart: Seq<KeyView>,
) -> Option<ServiceErrorView>
    decreases restart.len(),
{
    if restart.len() == 0 {
        None
    } else if restart_error(s, replaced, restart.drop_last()) is Some {
        restart_error(s, replaced, restart.drop_last())
    } else {
        match first_unmet(s, replaced, services::deps_of(s, restart.last())) {
            Some(d) => Some(
                ServiceErrorView::Unresolved {
                    key: restart.last(),
                    required_version: d.required_version,
                },
            ),
            None => None,
        }
    }
}

proof fn lemma_first_unmet_stays(
    s: Seq<EntryView>,
    replaced: KeyView,
    deps: Seq<DependencyView>,
    n: int,
)
    requires
        0 <= n <= deps.len(),
        first_unmet(s, replaced, deps.take(n)) is Some,
    ensures
        first_unmet(s, replaced, deps) == first_unmet(s, replaced, deps.take(n)),
    decreases deps.len() - n,
{
    if n == deps.len() {
        assert(deps.take(n) =~= deps);
    } else {
        assert(deps.take(n + 1).drop_last() =~= deps.take(n));
        lemma_first_unmet_stays(s, replaced, deps, n + 1);
    }
}

proof fn lemma_restart_error_stays(
    s: Seq<EntryView>,
    replaced: KeyView,
    restart: Seq<KeyView>,
    n: int,
)
    requires
        0 <= n <= restart.len(),
        restart_error(s, replaced, restart.take(n)) is Some,
    ensures
        restart_error(s, replaced, restart) == restart_error(s, replaced, restart.take(n)),
    decreases restart.len() - n,
{
    if n == restart.len() {
        assert(restart.take(n) =~= restart);
    } else {
        assert(restart.take(n + 1).drop_last() =~= restart.take(n));
        lemma_restart_error_stays(s, replaced, restart, n + 1);
    }
}

/// The version of the first remaining dependency of a restarting service that
/// is not met.
fn unmet_version(
    registry: &ServiceRegistry,
    key: &ServiceKey,
    deps: &Vec<ServiceDependency>,
) -> (r: Option<u32>)
    requires
        registry.wf(),
    ensures
        match r {
            Some(v) => first_unmet(registry@, key@, value::views(deps@)) matches Some(d)
                && d.required_version == v,
            None => first_unmet(registry@, key@, value::views(deps@)) is None,
        },
{
    let ghost all = value::views(deps@);
    let mut i: usize = 0;
    assert(all.take(0) =~= Seq::empty());
    while i < deps.len()
        invariant
            i <= deps.len(),
            all == value::views(deps@),
            registry.wf(),
            first_unmet(registry@, key@, all.take(i as int)) is None,
        decreases deps.len() - i,
    {
        let d = &deps[i];
        proof {
            assert(all.take(i + 1).drop_last() =~= all.take(i as int));
            assert(all.take(i + 1).last() == d@);
        }
        if !d.key.same(key) {
            let fits = match registry.holder(&d.key) {
                Some(p) => p.contract.version == d.required_version,
                None => false,
            };
            if !fits {
                proof {
                    lemma_first_unmet_stays(registry@, key@, all, i + 1);
                }
                return Some(d.required_version);
            }
        }
        i = i + 1;
    }
    assert(all.take(i as int) =~= all);
    None
}

/// Plans the replacement of `key` by `new_provider`. Dependents that require
/// exactly the new version rebind; the others restart. A restarting dependent
/// with a remaining dependency that is not met fails the whole plan.
pub fn plan_replacement(
    registry: &ServiceRegistry,
    key: &ServiceKey,
    new_provider: &ServiceProvider,
) -> (r: Result<ReplacementPlan, ServiceError>)
    requires
        registry.wf(),
    ensures
        value::failure(r) == restart_error(
            registry@,
            key@,
            keys_requiring(
                services::dependents(registry@, key@),
                new_provider@.contract.version,
                false,
            ),
        ),
        r matches Ok(plan) ==> value::views(plan.rebind@) == keys_requiring(
            services::dependents(registry@, key@),
            new_provider@.contract.version,
            true,
        ) && value::views(plan.restart@) == keys_requiring(
            services::dependents(registry@, key@),
            new_provider@.contract.version,
            false,
        ),
{
    let edges = registry.dependents_of(key);
    let ghost all = services::dependents(registry@, key@);
    let version: u32 = new_provider.contract.version;
    let mut rebind: Vec<ServiceKey> = Vec::new();
    let mut restart: Vec<ServiceKey> = Vec::new();
    let mut i: usize = 0;
    assert(all.take(0) =~= Seq::empty());
    while i < edges.len()
        invariant
            i <= edges.len(),
            all == value::views(edges@),
            value::views(rebind@) == keys_requiring(all.take(i as int), version, true),
            value::views(restart@) == keys_requiring(all.take(i as int), version, false),
        decreases edges.len() - i,
    {
        proof {
            assert(all.take(i + 1).drop_last() =~= all.take(i as int));
            assert(all.take(i + 1).last() == edges@[i as int]@);
        }
        if edges[i].required_version == version {
            rebind.push(edges[i].key.copy());
        } else {
            restart.push(edges[i].key.copy());
        }
        i = i + 1;
    }
    assert(all.take(i as int) =~= all);
    let ghost late = value::views(restart@);
    let mut k: usize = 0;
    assert(late.take(0) =~= Seq::empty());
    while k < restart.len()
        invariant
            k <= restart.len(),
            late == value::views(restart@),
            late == keys_requiring(
                services::dependents(registry@, key@),
                new_provider@.contract.version,
                false,
            ),
            registry.wf(),
            restart_error(registry@, key@, late.take(k as int)) is None,
        decreases restart.len() - k,
    {
        proof {
            assert(late.take(k + 1).drop_last() =~= late.take(k as int));
            assert(late.take(k + 1).last() == restart@[k as int]@);
        }
        let deps = registry.deps_of(&restart[k]);
        match unmet_version(registry, key, &deps) {
            Some(required_version) => {
                proof {
                    lemma_restart_error_stays(registry@, key@, late, k + 1);
                }
                return Err(ServiceError::Unresolved { key: restart[k].copy(), required_version });
            },
            None => {},
        }
        k = k + 1;
    }
    assert(late.take(k as int) =~= late);
    Ok(ReplacementPlan { rebind, restart })
}

/// Every dependent is either rebound or restarted: the plan's two lists
/// together are as long as the list of dependents.
pub proof fn law_every_dependent_is_planned(edges: Seq<DependencyView>, version: u32)
    ensures
        keys_requiring(edges, version, true).len() + keys_requiring(edges, version, false).len()
            == edges.len(),
        forall|i: int|
            0 <= i < edges.len() ==> keys_requiring(
                edges,
                version,
                (#[trigger] edges[i]).required_version == version,
            ).contains(edges[i].key),
    decreases edges.len(),
{
    if edges.len() > 0 {
        let rest = edges.drop_last();
        law_every_dependent_is_planned(rest, version);
        assert forall|i: int| 0 <= i < edges.len() implies keys_requiring(
            edges,
            version,
            (#[trigger] edges[i]).required_version == version,
        ).contains(edges[i].key) by {
            let equal = edges[i].required_version == version;
            let before = keys_requiring(rest, version, equal);
            let after = keys_requiring(edges, version, equal);
            if i < rest.len() {
                assert(rest[i] == edges[i]);
                assert(before.contains(edges[i].key));
                let k = choose|k: int| 0 <= k < before.len() && before[k] == edges[i].key;
                assert(after[k] == edges[i].key);
            } else {
                assert(after.last() == edges[i].key);
                assert(after[after.len() - 1] == edges[i].key);
            }
        }
    }
}

/// A dependent rebinds exactly where it requires the new version, and restarts
/// where it requires another; the order of the dependents stays.
pub proof fn law_dependents_rebind_at_their_version(
    edges: Seq<DependencyView>,
    d: DependencyView,
    version: u32,
)
    ensures
        keys_requiring(Seq::empty(), version, true) == Seq::<KeyView>::empty(),
        keys_requiring(Seq::empty(), version, false) == Seq::<KeyView>::empty(),
        d.required_version == version ==> keys_requiring(edges.push(d), version, true)
            == keys_requiring(edges, version, true).push(d.key) && keys_requiring(
            edges.push(d),
            version,
            false,
        ) == keys_requiring(edges, version, false),
        d.required_version != version ==> keys_requiring(edges.push(d), version, false)
            == keys_requiring(edges, version, false).push(d.key) && keys_requiring(
            edges.push(d),
            version,
            true,
        ) == keys_requiring(edges, version, true),
{
    assert(edges.push(d).drop_last() =~= edges);
}

/// Dependencies are met exactly where each of them, but for the replaced
/// service, is published at the version it is required at.
pub proof fn law_dependencies_are_met_at_their_version(
    s: Seq<EntryView>,
    replaced: KeyView,
    deps: Seq<DependencyView>,
)
    ensures
        first_unmet(s, replaced, deps) is None <==> forall|i: int|
            0 <= i < deps.len() ==> (#[trigger] deps[i]).key == replaced || (services::holds(
                s,
                deps[i].key,
            ) && services::holder_of(s, deps[i].key).contract.version == deps[i].required_version),
        first_unmet(s, replaced, deps) matches Some(d) ==> deps.contains(d) && d.key != replaced,
    decreases deps.len(),
{
    if deps.len() > 0 {
        let r = deps.drop_last();
        law_dependencies_are_met_at_their_version(s, replaced, r);
        assert(deps[deps.len() - 1] == deps.last());
        if first_unmet(s, replaced, r) is Some {
            let d = first_unmet(s, replaced, r)->0;
            let j = choose|j: int| 0 <= j < r.len() && r[j] == d;
            assert(deps[j] == d);
            let i = choose|i: int|
                0 <= i < r.len() && !((#[trigger] r[i]).key == replaced || (services::holds(
                    s,
                    r[i].key,
                ) && services::holder_of(s, r[i].key).contract.version == r[i].required_version));
            assert(deps[i] == r[i]);
        } else {
            assert forall|i: int| 0 <= i < deps.len() - 1 implies (#[trigger] deps[i]).key
                == replaced || (services::holds(s, deps[i].key) && services::holder_of(
                s,
                deps[i].key,
            ).contract.version == deps[i].required_version) by {
                assert(deps[i] == r[i]);
            }
        }
    }
}

/// A plan fails with the first dependent that has to restart and cannot.
pub proof fn law_plans_fail_on_stuck_dependents(
    s: Seq<EntryView>,
    replaced: KeyView,
    restart: Seq<KeyView>,
    k: KeyView,
)
    ensures
        restart_error(s, replaced, Seq::empty()) is None,
        restart_error(s, replaced, restart) is Some ==> restart_error(s, replaced, restart.push(k))
            == restart_error(s, replaced, restart),
        restart_error(s, replaced, restart) is None ==> (restart_error(
            s,
            replaced,
            restart.push(k),
        ) is None <==> first_unmet(s, replaced, services::deps_of(s, k)) is None),
        (restart_error(s, replaced, restart) is None && first_unmet(
            s,
            replaced,
            services::deps_of(s, k),
        ) is Some) ==> restart_error(s, replaced, restart.push(k)) == Some(
            ServiceErrorView::Unresolved {
                key: k,
                required_version: first_unmet(
                    s,
                    replaced,
                    services::deps_of(s, k),
                )->0.required_version,
            },
        ),
{
    assert(restart.push(k).drop_last() =~= restart);
}

} // verus!
