use kanbei::contribution::{
    CommandContribution, ContextPredicate, Contribution, ContributionKind, GuardContribution,
    Keybinding, KeymapOrigin, ProjectionStageContribution, ServiceContribution, ThemeContribution,
    ToolContribution, UiMountContribution,
};
use kanbei::epoch::CompositionStore;
use kanbei::errors::ScopeError;
use kanbei::ids::{Digest, Id128};
use kanbei::json::{normalize, object, render, Field, Json};
use kanbei::registry::ContributionRegistry;
use kanbei::services::{
    ScopePath, ServiceContract, ServiceKey, ServiceProvider, ServiceRegistry,
};
use std::sync::atomic::{AtomicU64, Ordering};

fn fresh_id() -> Id128 {
    static NEXT: AtomicU64 = AtomicU64::new(1);
    Id128 {
        text: format!("id-{:020}", NEXT.fetch_add(1, Ordering::SeqCst)),
    }
}

/// A content digest for the tests: a 64-bit FNV-1a in hexadecimal.
fn digest_of(bytes: Vec<u8>) -> Digest {
    let mut hash: u64 = 0xcbf29ce484222325;
    for b in bytes {
        hash ^= b as u64;
        hash = hash.wrapping_mul(0x100000001b3);
    }
    Digest {
        text: format!("{hash:016x}"),
    }
}

fn text(t: &str) -> Json {
    Json::Text(t.to_string())
}

fn field(name: &str, value: Json) -> Field {
    Field {
        name: name.to_string(),
        value,
    }
}

fn keybinding(key: String, action: String) -> Keybinding {
    Keybinding {
        key,
        context: ContextPredicate::Always,
        action,
        origin: KeymapOrigin::Builtin,
        owner: None,
    }
}

fn scope(name: &str) -> ScopePath {
    ScopePath(vec![name.to_string()])
}

fn provider(name: &str, version: u32) -> ServiceProvider {
    ServiceProvider {
        module_id: fresh_id(),
        generation: 1,
        contract: ServiceContract {
            name: name.to_string(),
            version,
        },
    }
}

fn full_set(s: &ScopePath) -> Vec<Contribution> {
    vec![
        Contribution {
            scope: s.clone(),
            kind: ContributionKind::Command(CommandContribution {
                name: "cmd".into(),
                handler: "cmd_h".into(),
            }),
        },
        Contribution {
            scope: s.clone(),
            kind: ContributionKind::Tool(ToolContribution {
                name: "tool".into(),
                manifest: object(vec![field("replay_relevant", Json::Bool(true))]),
                handler: "tool_h".into(),
            }),
        },
        Contribution {
            scope: s.clone(),
            kind: ContributionKind::Service(ServiceContribution {
                key: ServiceKey {
                    scope: s.clone(),
                    name: "svc".into(),
                },
                provider: provider("svc", 1),
                deps: vec![],
            }),
        },
        Contribution {
            scope: s.clone(),
            kind: ContributionKind::Keymap(keybinding("k".into(), "a".into())),
        },
        Contribution {
            scope: s.clone(),
            kind: ContributionKind::Theme(ThemeContribution {
                name: "t".into(),
                overlay: object(vec![field("colors", object(vec![field("bg", text("#000"))]))]),
            }),
        },
        Contribution {
            scope: s.clone(),
            kind: ContributionKind::ProjectionStage(ProjectionStageContribution {
                slot: "main".into(),
                ordering: 10,
                handler: "stage_h".into(),
            }),
        },
        Contribution {
            scope: s.clone(),
            kind: ContributionKind::UiMount(UiMountContribution {
                name: "header".into(),
                component: "Header".into(),
                slot: None,
            }),
        },
        Contribution {
            scope: s.clone(),
            kind: ContributionKind::Guard(GuardContribution {
                name: "g".into(),
                predicate: "pred".into(),
                monotonic: false,
            }),
        },
    ]
}

/// A second set with distinct names, for publishing into a non-empty registry.
fn variant_set(s: &ScopePath) -> Vec<Contribution> {
    vec![
        Contribution {
            scope: s.clone(),
            kind: ContributionKind::Command(CommandContribution {
                name: "cmd2".into(),
                handler: "cmd_h".into(),
            }),
        },
        Contribution {
            scope: s.clone(),
            kind: ContributionKind::Tool(ToolContribution {
                name: "tool2".into(),
                manifest: object(vec![field("replay_relevant", Json::Bool(false))]),
                handler: "tool_h".into(),
            }),
        },
        Contribution {
            scope: s.clone(),
            kind: ContributionKind::Service(ServiceContribution {
                key: ServiceKey {
                    scope: s.clone(),
                    name: "svc2".into(),
                },
                provider: provider("svc2", 2),
                deps: vec![],
            }),
        },
        Contribution {
            scope: s.clone(),
            kind: ContributionKind::Keymap(keybinding("k2".into(), "a".into())),
        },
        Contribution {
            scope: s.clone(),
            kind: ContributionKind::Theme(ThemeContribution {
                name: "t2".into(),
                overlay: object(vec![field("fonts", object(vec![field("size", Json::Unsigned(14))]))]),
            }),
        },
        Contribution {
            scope: s.clone(),
            kind: ContributionKind::ProjectionStage(ProjectionStageContribution {
                slot: "main".into(),
                ordering: 20,
                handler: "stage_h".into(),
            }),
        },
        Contribution {
            scope: s.clone(),
            kind: ContributionKind::UiMount(UiMountContribution {
                name: "footer".into(),
                component: "Footer".into(),
                slot: None,
            }),
        },
        Contribution {
            scope: s.clone(),
            kind: ContributionKind::Guard(GuardContribution {
                name: "g2".into(),
                predicate: "pred".into(),
                monotonic: true,
            }),
        },
    ]
}

#[test]
fn stage_publish_full_set_bumps_epoch_and_digests() {
    let mut registry = ContributionRegistry::new(ServiceRegistry::new());
    let mut store = CompositionStore::new(&registry, &digest_of);
    assert_eq!(store.current().epoch, 0);
    assert!(store.current().contributions.is_empty());

    let s = scope("app");
    let set = full_set(&s);
    store.stage_publish(&set, &mut registry, &digest_of).unwrap();
    assert_eq!(store.current().epoch, 1);
    assert_eq!(store.current().contributions.len(), 8);
    // the composition holds the published contributions
    assert!(store.current().contributions.iter().any(|c| matches!(
        &c.kind,
        ContributionKind::Command(cmd) if cmd.name == "cmd"
    )));

    // identical compositions at the same epoch digest identically
    let mut registry2 = ContributionRegistry::new(ServiceRegistry::new());
    let mut store2 = CompositionStore::new(&registry2, &digest_of);
    store2.stage_publish(&set, &mut registry2, &digest_of).unwrap();
    assert_eq!(store2.current().epoch, store.current().epoch);
    assert_eq!(store2.current().digest, store.current().digest);

    // a changed contribution changes the digest
    let mut set2 = full_set(&s);
    set2[0] = Contribution {
        scope: s.clone(),
        kind: ContributionKind::Command(CommandContribution {
            name: "cmd2".into(),
            handler: "cmd_h".into(),
        }),
    };
    let mut registry3 = ContributionRegistry::new(ServiceRegistry::new());
    let mut store3 = CompositionStore::new(&registry3, &digest_of);
    store3.stage_publish(&set2, &mut registry3, &digest_of).unwrap();
    assert_ne!(store3.current().digest, store.current().digest);
}

#[test]
fn occ_stale_epoch_rejected() {
    let mut registry = ContributionRegistry::new(ServiceRegistry::new());
    let mut store = CompositionStore::new(&registry, &digest_of);
    let s = scope("app");
    let staged = store.stage(full_set(&s)); // against epoch 0

    // someone else publishes first: epoch 0 -> 1
    store
        .stage_publish(&variant_set(&s), &mut registry, &digest_of)
        .unwrap();
    assert_eq!(store.current().epoch, 1);

    // the stale set is rejected; nothing is applied
    let err = store.publish(&staged, &mut registry, &digest_of).unwrap_err();
    assert_eq!(
        err,
        ScopeError::StaleEpoch {
            staged: 0,
            current: 1,
        }
    );
    assert_eq!(store.current().epoch, 1);
    assert!(
        registry
            .snapshot()
            .iter()
            .all(|c| !matches!(&c.kind, ContributionKind::Command(cmd) if cmd.name == "cmd"))
    );

    // a fresh stage against the current epoch publishes (full_set is
    // disjoint from variant_set, so it does not conflict)
    let fresh = store.stage(full_set(&s));
    store.publish(&fresh, &mut registry, &digest_of).unwrap();
    assert_eq!(store.current().epoch, 2);
}

#[test]
fn digest_is_domain_separated() {
    let mut registry = ContributionRegistry::new(ServiceRegistry::new());
    let mut store = CompositionStore::new(&registry, &digest_of);
    let s = scope("app");
    store.stage_publish(&full_set(&s), &mut registry, &digest_of).unwrap();
    let epoch = store.current().epoch;
    assert_eq!(epoch, 1);

    // the same epoch + contributions WITHOUT the composition-v1 domain
    // marker must not produce the same digest
    let unprefixed = object(vec![
        field("epoch", Json::Unsigned(epoch)),
        field(
            "contributions",
            Json::List(
                store
                    .current()
                    .contributions
                    .iter()
                    .map(|c| normalize(&c.encode()))
                    .collect(),
            ),
        ),
    ]);
    let bytes = render(&unprefixed).into_bytes();
    assert_ne!(store.current().digest, digest_of(bytes));
}
