use kanbei::contribution::{Contribution, ContributionKind, ServiceContribution};
use kanbei::ids::Id128;
use kanbei::json::{normalize, read, render};
use kanbei::replacement::plan_replacement;
use kanbei::services::{
    Publication, ReplaceIntent, ScopePath, ServiceContract, ServiceDependency, ServiceError,
    ServiceKey, ServiceProvider, ServiceRegistry,
};
use std::sync::atomic::{AtomicU64, Ordering};

fn fresh_id() -> Id128 {
    static NEXT: AtomicU64 = AtomicU64::new(1);
    Id128 {
        text: format!("id-{:020}", NEXT.fetch_add(1, Ordering::SeqCst)),
    }
}

fn key(scope: &[&str], name: &str) -> ServiceKey {
    ServiceKey {
        scope: ScopePath(scope.iter().map(|s| s.to_string()).collect()),
        name: name.to_string(),
    }
}

fn root() -> ScopePath {
    ScopePath(vec!["root".to_string()])
}

fn provider(name: &str, version: u32) -> ServiceProvider {
    ServiceProvider {
        module_id: fresh_id(),
        generation: 1,
        contract: ServiceContract {
            name: name.to_string(),
            version,
        },
    }
}

fn dep(key: ServiceKey, required_version: u32) -> ServiceDependency {
    ServiceDependency {
        key,
        required_version,
    }
}

#[test]
fn publish_and_resolve_same_scope() {
    let mut reg = ServiceRegistry::new();
    let k = key(&["root"], "svc");
    reg.publish(k.clone(), provider("svc", 3)).unwrap();
    assert_eq!(reg.resolve(&k, 3, &root()).unwrap().contract.version, 3);
    let err = reg.resolve(&k, 4, &root()).unwrap_err();
    assert!(matches!(
        err,
        ServiceError::VersionMismatch {
            required_version: 4,
            actual_version: 3,
            ..
        }
    ));
}

#[test]
fn ancestor_scope_resolution_ok() {
    let mut reg = ServiceRegistry::new();
    let k = key(&["root"], "svc");
    reg.publish(k.clone(), provider("svc", 1)).unwrap();
    let caller = ScopePath(vec!["root".to_string(), "child".to_string()]);
    assert_eq!(reg.resolve(&k, 1, &caller).unwrap().contract.name, "svc");
}

#[test]
fn parent_to_child_and_unrelated_resolution_rejected() {
    let mut reg = ServiceRegistry::new();
    let k = key(&["root", "child"], "svc");
    reg.publish(k.clone(), provider("svc", 1)).unwrap();
    let err = reg.resolve(&k, 1, &root()).unwrap_err();
    assert!(matches!(err, ServiceError::ScopeViolation { .. }));
    let err = reg
        .resolve(&k, 1, &ScopePath(vec!["other".to_string()]))
        .unwrap_err();
    assert!(matches!(err, ServiceError::ScopeViolation { .. }));
}

#[test]
fn publish_conflict_and_replace_intent() {
    let mut reg = ServiceRegistry::new();
    let k = key(&["root"], "svc");
    let first = provider("svc", 1);
    reg.publish(k.clone(), first.clone()).unwrap();

    // second publish without replace intent → Conflict naming all three
    let second = provider("svc", 2);
    let err = reg.publish(k.clone(), second.clone()).unwrap_err();
    match err {
        ServiceError::Conflict {
            key: k2,
            holder,
            challenger,
        } => {
            assert_eq!(k2, k);
            assert_eq!(holder, first);
            assert_eq!(challenger, second);
        }
        other => panic!("expected Conflict, got {other:?}"),
    }

    // replace intent naming the current holder → Ok
    let intent = ReplaceIntent {
        current: first.clone(),
        proposed: second.clone(),
    };
    reg.replace_publish(k.clone(), second.clone(), &intent).unwrap();
    assert_eq!(reg.resolve(&k, 2, &root()).unwrap().contract.version, 2);

    // stale intent (holder changed) → Conflict
    let challenger = provider("svc", 3);
    let stale = ReplaceIntent {
        current: first,
        proposed: challenger.clone(),
    };
    let err = reg.replace_publish(k.clone(), challenger, &stale).unwrap_err();
    assert!(matches!(err, ServiceError::Conflict { .. }));

    // intent whose proposed provider differs from the payload → InvalidInput
    let mismatched = ReplaceIntent {
        current: second.clone(),
        proposed: provider("svc", 9),
    };
    let err = reg.replace_publish(k.clone(), second, &mismatched).unwrap_err();
    assert!(matches!(err, ServiceError::InvalidInput(_)));

    // replace intent for a free key → InvalidInput
    let free = key(&["root"], "free");
    let err = reg
        .replace_publish(
            free,
            provider("free", 1),
            &ReplaceIntent {
                current: provider("free", 1),
                proposed: provider("free", 1),
            },
        )
        .unwrap_err();
    assert!(matches!(err, ServiceError::InvalidInput(_)));
}

#[test]
fn dependency_cycle_rejected() {
    let mut reg = ServiceRegistry::new();
    let a = key(&["root"], "a");
    let b = key(&["root"], "b");
    reg.publish_with_deps(a.clone(), provider("a", 1), &[dep(b.clone(), 1)])
        .unwrap();

    // B depends on A while A depends on B → cycle naming both
    let err = reg
        .publish_with_deps(b.clone(), provider("b", 1), &[dep(a.clone(), 1)])
        .unwrap_err();
    match err {
        ServiceError::DependencyCycle { path } => {
            assert!(path.iter().any(|p| p.contains("/a")));
            assert!(path.iter().any(|p| p.contains("/b")));
            assert_eq!(path.first(), path.last());
        }
        other => panic!("expected DependencyCycle, got {other:?}"),
    }

    // self-dependency → cycle
    let err = reg
        .publish_with_deps(b.clone(), provider("b", 2), &[dep(b.clone(), 2)])
        .unwrap_err();
    assert!(matches!(err, ServiceError::DependencyCycle { .. }));

    // the failed publishes left the registry unchanged
    assert!(matches!(
        reg.resolve(&b, 1, &root()),
        Err(ServiceError::Unresolved { .. })
    ));
}

#[test]
fn check_dependency_cycle_direct() {
    let mut reg = ServiceRegistry::new();
    let a = key(&["root"], "a");
    let b = key(&["root"], "b");
    reg.publish_with_deps(a.clone(), provider("a", 1), &[dep(b.clone(), 1)])
        .unwrap();

    let err = reg
        .check_dependency_cycle(&[dep(a.clone(), 1)], &provider("b", 1), &root())
        .unwrap_err();
    assert!(matches!(err, ServiceError::DependencyCycle { .. }));

    // an acyclic addition passes
    let c = key(&["root"], "c");
    reg.check_dependency_cycle(&[dep(c, 1)], &provider("b", 1), &root())
        .unwrap();

    // a child-scope dependency is rejected
    let err = reg
        .check_dependency_cycle(
            &[dep(key(&["root", "c"], "deep"), 1)],
            &provider("b", 1),
            &root(),
        )
        .unwrap_err();
    assert!(matches!(err, ServiceError::ScopeViolation { .. }));
}

#[test]
fn the_first_of_several_cycles_is_reported() {
    let mut reg = ServiceRegistry::new();
    let [a, b, c] = ["a", "b", "c"].map(|n| key(&["root"], n));
    reg.publish_with_deps(a.clone(), provider("a", 1), &[dep(b.clone(), 1)])
        .unwrap();
    reg.publish_with_deps(b.clone(), provider("b", 1), &[dep(c.clone(), 1)])
        .unwrap();
    // Both `c -> b -> c` and `c -> a -> b -> c` close; the search starts at the
    // least key, and goes on to the least one that gets to a cycle.
    let err = reg
        .check_dependency_cycle(
            &[dep(b.clone(), 1), dep(a.clone(), 1)],
            &provider("c", 1),
            &root(),
        )
        .unwrap_err();
    assert_eq!(
        err,
        ServiceError::DependencyCycle {
            path: vec![a.text(), b.text(), c.text(), a.text()],
        }
    );
}

#[test]
fn remove_ownership_and_dependents() {
    let mut reg = ServiceRegistry::new();
    let a = key(&["root"], "a");
    let b = key(&["root"], "b");
    let owner = fresh_id();
    let intruder = fresh_id();

    reg.publish(
        a.clone(),
        ServiceProvider {
            module_id: owner.clone(),
            generation: 1,
            contract: ServiceContract {
                name: "a".to_string(),
                version: 1,
            },
        },
    )
    .unwrap();
    reg.publish_with_deps(
        b.clone(),
        ServiceProvider {
            module_id: owner.clone(),
            generation: 1,
            contract: ServiceContract {
                name: "b".to_string(),
                version: 1,
            },
        },
        &[dep(a.clone(), 1)],
    )
    .unwrap();

    // non-owner → NotOwner, even when dependents exist
    let err = reg.remove(&a, &intruder).unwrap_err();
    assert!(matches!(err, ServiceError::NotOwner { .. }));

    // owner with a dependent → DependentsExist
    let err = reg.remove(&a, &owner).unwrap_err();
    assert!(matches!(err, ServiceError::DependentsExist { .. }));

    // removing the dependent clears its edges; then the owner removes freely
    reg.remove(&b, &owner).unwrap();
    reg.remove(&a, &owner).unwrap();
    assert!(matches!(
        reg.resolve(&a, 1, &root()),
        Err(ServiceError::Unresolved { .. })
    ));
    assert!(reg.dependents_of(&a).is_empty());

    // removing an unpublished key → InvalidInput
    let err = reg.remove(&b, &owner).unwrap_err();
    assert!(matches!(err, ServiceError::InvalidInput(_)));
}

#[test]
fn plan_replacement_rebind_and_restart() {
    let mut reg = ServiceRegistry::new();
    let svc = key(&["root"], "svc");
    let helper = key(&["root"], "helper");
    reg.publish(svc.clone(), provider("svc", 1)).unwrap();
    reg.publish(helper.clone(), provider("helper", 5)).unwrap();

    let compat = key(&["root"], "compat");
    let incompat = key(&["root"], "incompat");
    reg.publish_with_deps(
        compat.clone(),
        provider("compat", 1),
        &[dep(svc.clone(), 2)],
    )
    .unwrap();
    reg.publish_with_deps(
        incompat.clone(),
        provider("incompat", 1),
        &[dep(svc.clone(), 1), dep(helper, 5)],
    )
    .unwrap();

    // svc v1 → v2: compat (requires v2) rebinds, incompat (requires v1)
    // restarts; incompat's remaining dependency (helper v5) still resolves.
    let plan = plan_replacement(&reg, &svc, &provider("svc", 2)).unwrap();
    assert_eq!(plan.rebind, vec![compat]);
    assert_eq!(plan.restart, vec![incompat]);
}

#[test]
fn plan_replacement_restart_failure_fails_transaction() {
    let mut reg = ServiceRegistry::new();
    let svc = key(&["root"], "svc");
    reg.publish(svc.clone(), provider("svc", 1)).unwrap();

    // restart-dependent whose remaining dependency is not published
    let ghost = key(&["root"], "ghost");
    let failing = key(&["root"], "failing");
    reg.publish_with_deps(
        failing.clone(),
        provider("failing", 1),
        &[dep(svc.clone(), 1), dep(ghost, 3)],
    )
    .unwrap();

    let err = plan_replacement(&reg, &svc, &provider("svc", 2)).unwrap_err();
    match err {
        ServiceError::Unresolved {
            key,
            required_version,
        } => {
            assert_eq!(key, failing);
            assert_eq!(required_version, 3);
        }
        other => panic!("expected Unresolved, got {other:?}"),
    }

    // a version-mismatched remaining dependency also fails the transaction
    let helper = key(&["root"], "helper");
    reg.publish(helper.clone(), provider("helper", 5)).unwrap();
    let mismatch = key(&["root"], "mismatch");
    reg.publish_with_deps(
        mismatch.clone(),
        provider("mismatch", 1),
        &[dep(svc.clone(), 1), dep(helper, 6)],
    )
    .unwrap();
    let err = plan_replacement(&reg, &svc, &provider("svc", 2)).unwrap_err();
    assert!(matches!(err, ServiceError::Unresolved { .. }));
}

#[test]
fn snapshot_shape_and_json_roundtrip() {
    let mut reg = ServiceRegistry::new();
    let svc = key(&["root"], "svc");
    let child = key(&["root", "child"], "tool");
    let p = provider("svc", 2);
    reg.publish(svc.clone(), p.clone()).unwrap();
    reg.publish_with_deps(child.clone(), provider("tool", 1), &[dep(svc.clone(), 2)])
        .unwrap();

    let snap = reg.snapshot();
    assert_eq!(snap.len(), 2);
    let Publication {
        key: key1,
        provider: provider1,
        deps: deps1,
    } = &snap[0];
    assert_eq!(key1, &child); // /root/child/tool sorts before /root/svc
    assert_eq!(provider1.contract.version, 1);
    assert_eq!(deps1, &[dep(svc.clone(), 2)]);
    let Publication {
        key: key2,
        provider: provider2,
        deps: deps2,
    } = &snap[1];
    assert_eq!(key2, &svc);
    assert_eq!(provider2, &p);
    assert!(deps2.is_empty());

    // the document of a snapshot entry reads back as it was written
    let entry = Contribution {
        scope: child.scope.clone(),
        kind: ContributionKind::Service(ServiceContribution {
            key: snap[0].key.clone(),
            provider: snap[0].provider.clone(),
            deps: snap[0].deps.clone(),
        }),
    };
    let written = normalize(&entry.encode());
    let back = read(render(&written).as_str()).unwrap();
    assert_eq!(back, written);

    // display forms
    assert_eq!(ScopePath(vec![]).text(), "/");
    assert_eq!(root().text(), "/root");
    assert_eq!(key(&["root", "child"], "tool").text(), "/root/child/tool");
}

#[test]
fn cross_scope_dependencies() {
    let mut reg = ServiceRegistry::new();
    let svc = key(&["root"], "svc");
    reg.publish(svc.clone(), provider("svc", 1)).unwrap();

    // a provider in /root/child may depend on the ancestor /root/service
    let child_svc = key(&["root", "child"], "child-svc");
    reg.publish_with_deps(
        child_svc.clone(),
        provider("child-svc", 1),
        &[dep(svc.clone(), 1)],
    )
    .unwrap();
    assert_eq!(reg.dependents_of(&svc), vec![dep(child_svc.clone(), 1)]);

    // depending on a descendant scope service is rejected
    let grand = key(&["root", "child", "grand"], "grand-svc");
    reg.publish_with_deps(
        grand.clone(),
        provider("grand-svc", 1),
        &[dep(child_svc.clone(), 1)],
    )
    .unwrap();
    let err = reg
        .publish_with_deps(
            key(&["root", "child"], "other"),
            provider("other", 1),
            &[dep(grand, 1)],
        )
        .unwrap_err();
    assert!(matches!(err, ServiceError::ScopeViolation { .. }));

    // unrelated scopes are rejected too
    let unrelated = key(&["other"], "svc2");
    let err = reg
        .publish_with_deps(
            key(&["root"], "x"),
            provider("x", 1),
            &[dep(unrelated, 1)],
        )
        .unwrap_err();
    assert!(matches!(err, ServiceError::ScopeViolation { .. }));
}

#[test]
fn replace_publish_preserves_dependency_edges() {
    let mut reg = ServiceRegistry::new();
    let svc = key(&["root"], "svc");
    let user = key(&["root"], "user");
    let first = provider("svc", 1);
    reg.publish(svc.clone(), first.clone()).unwrap();
    reg.publish_with_deps(user.clone(), provider("user", 1), &[dep(svc.clone(), 1)])
        .unwrap();

    let new = provider("svc", 2);
    reg.replace_publish(
        svc.clone(),
        new.clone(),
        &ReplaceIntent {
            current: first,
            proposed: new,
        },
    )
    .unwrap();
    assert_eq!(reg.dependents_of(&svc), vec![dep(user, 1)]);
}

#[test]
fn publish_rejects_contract_name_mismatch() {
    let mut reg = ServiceRegistry::new();
    let err = reg.publish(key(&["root"], "svc"), provider("other", 1)).unwrap_err();
    assert!(matches!(err, ServiceError::InvalidInput(_)));
    assert!(reg.snapshot().is_empty());
}
