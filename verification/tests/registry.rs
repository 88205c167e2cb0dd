use kanbei::contribution::{
    ApprovalSettings, CommandContribution, ContextPredicate, Contribution, ContributionKind,
    GuardContribution, KeyReference, Keybinding, KeymapOrigin, ProjectionStageContribution,
    ProviderSettings, ServiceContribution, SettingsContribution, ThemeContribution,
    ToolContribution, UiMountContribution,
};
use kanbei::epoch::CompositionStore;
use kanbei::errors::ScopeError;
use kanbei::ids::{Digest, Id128};
use kanbei::json::{normalize, object, Field, Json};
use kanbei::registry::{ContributionRegistry, OverridePlan};
use kanbei::services::{
    ScopePath, ServiceContract, ServiceDependency, ServiceError, ServiceKey, ServiceProvider,
    ServiceRegistry,
};
use std::sync::atomic::{AtomicU64, Ordering};

fn fresh_id() -> Id128 {
    static NEXT: AtomicU64 = AtomicU64::new(1);
    Id128 {
        text: format!("id-{:020}", NEXT.fetch_add(1, Ordering::SeqCst)),
    }
}

/// A content digest for the tests: a 64-bit FNV-1a in hexadecimal.
fn digest_of(bytes: Vec<u8>) -> Digest {
    let mut hash: u64 = 0xcbf29ce484222325;
    for b in bytes {
        hash ^= b as u64;
        hash = hash.wrapping_mul(0x100000001b3);
    }
    Digest {
        text: format!("{hash:016x}"),
    }
}

fn text(t: &str) -> Json {
    Json::Text(t.to_string())
}

fn field(name: &str, value: Json) -> Field {
    Field {
        name: name.to_string(),
        value,
    }
}

fn keybinding(key: String, action: String) -> Keybinding {
    Keybinding {
        key,
        context: ContextPredicate::Always,
        action,
        origin: KeymapOrigin::Builtin,
        owner: None,
    }
}

fn scope(name: &str) -> ScopePath {
    ScopePath(vec![name.to_string()])
}

fn provider(name: &str, version: u32) -> ServiceProvider {
    ServiceProvider {
        module_id: fresh_id(),
        generation: 1,
        contract: ServiceContract {
            name: name.to_string(),
            version,
        },
    }
}

fn full_set(s: &ScopePath) -> Vec<Contribution> {
    vec![
        Contribution {
            scope: s.clone(),
            kind: ContributionKind::Command(CommandContribution {
                name: "cmd".into(),
                handler: "cmd_h".into(),
            }),
        },
        Contribution {
            scope: s.clone(),
            kind: ContributionKind::Tool(ToolContribution {
                name: "tool".into(),
                manifest: object(vec![field("replay_relevant", Json::Bool(true)), field("kind", text("shell"))]),
                handler: "tool_h".into(),
            }),
        },
        Contribution {
            scope: s.clone(),
            kind: ContributionKind::Service(ServiceContribution {
                key: ServiceKey {
                    scope: s.clone(),
                    name: "svc".into(),
                },
                provider: provider("svc", 1),
                deps: vec![],
            }),
        },
        Contribution {
            scope: s.clone(),
            kind: ContributionKind::Keymap(keybinding("k".into(), "a".into())),
        },
        Contribution {
            scope: s.clone(),
            kind: ContributionKind::Theme(ThemeContribution {
                name: "t".into(),
                overlay: object(vec![field("colors", object(vec![field("bg", text("#000"))]))]),
            }),
        },
        Contribution {
            scope: s.clone(),
            kind: ContributionKind::ProjectionStage(ProjectionStageContribution {
                slot: "main".into(),
                ordering: 10,
                handler: "stage_h".into(),
            }),
        },
        Contribution {
            scope: s.clone(),
            kind: ContributionKind::UiMount(UiMountContribution {
                name: "header".into(),
                component: "Header".into(),
                slot: None,
            }),
        },
        Contribution {
            scope: s.clone(),
            kind: ContributionKind::Guard(GuardContribution {
                name: "g".into(),
                predicate: "pred".into(),
                monotonic: false,
            }),
        },
    ]
}

fn validate_and_apply(
    registry: &mut ContributionRegistry,
    scope: &ScopePath,
    set: &[Contribution],
) {
    registry.validate(set).unwrap();
    registry.apply(scope, set).unwrap();
}

#[test]
fn duplicate_command_in_scope_conflicts() {
    let s = scope("app");
    let mut registry = ContributionRegistry::new(ServiceRegistry::new());
    let c1 = Contribution {
        scope: s.clone(),
        kind: ContributionKind::Command(CommandContribution {
            name: "run".into(),
            handler: "h1".into(),
        }),
    };
    let c2 = Contribution {
        scope: s.clone(),
        kind: ContributionKind::Command(CommandContribution {
            name: "run".into(),
            handler: "h2".into(),
        }),
    };
    // staged vs staged
    let err = registry.validate(&[c1.clone(), c2.clone()]).unwrap_err();
    assert_eq!(
        err,
        ScopeError::Conflict {
            kind: "command",
            scope: s.clone(),
            name: "run".into(),
            holder: "h1".into(),
            challenger: "h2".into(),
        }
    );
    // staged vs registry (moves: c1 and c2 are not used again)
    validate_and_apply(&mut registry, &s, &[c1]);
    let err = registry.validate(&[c2]).unwrap_err();
    assert_eq!(
        err,
        ScopeError::Conflict {
            kind: "command",
            scope: s.clone(),
            name: "run".into(),
            holder: "h1".into(),
            challenger: "h2".into(),
        }
    );
    // the same name in another scope is fine
    let other = scope("other");
    let c3 = Contribution {
        scope: other.clone(),
        kind: ContributionKind::Command(CommandContribution {
            name: "run".into(),
            handler: "h3".into(),
        }),
    };
    registry.validate(&[c3]).unwrap();
}

#[test]
fn duplicate_tool_in_scope_conflicts() {
    let s = scope("app");
    let mut registry = ContributionRegistry::new(ServiceRegistry::new());
    let t1 = Contribution {
        scope: s.clone(),
        kind: ContributionKind::Tool(ToolContribution {
            name: "sh".into(),
            manifest: object(vec![field("replay_relevant", Json::Bool(true))]),
            handler: "h1".into(),
        }),
    };
    let t2 = Contribution {
        scope: s.clone(),
        kind: ContributionKind::Tool(ToolContribution {
            name: "sh".into(),
            manifest: object(vec![field("replay_relevant", Json::Bool(false))]),
            handler: "h2".into(),
        }),
    };
    let err = registry.validate(&[t1.clone(), t2.clone()]).unwrap_err();
    assert_eq!(
        err,
        ScopeError::Conflict {
            kind: "tool",
            scope: s.clone(),
            name: "sh".into(),
            holder: "h1".into(),
            challenger: "h2".into(),
        }
    );
    validate_and_apply(&mut registry, &s, &[t1]);
    let err = registry.validate(&[t2]).unwrap_err();
    assert!(matches!(err, ScopeError::Conflict { kind: "tool", .. }));
}

#[test]
fn invalid_tool_manifest_rejected() {
    let s = scope("app");
    let registry = ContributionRegistry::new(ServiceRegistry::new());
    let bad = Contribution {
        scope: s.clone(),
        kind: ContributionKind::Tool(ToolContribution {
            name: "t".into(),
            manifest: object(vec![field("kind", text("shell"))]),
            handler: "h".into(),
        }),
    };
    let err = registry.validate(&[bad]).unwrap_err();
    assert!(matches!(
        err,
        ScopeError::InvalidContribution { ref scope, reason }
            if scope == &s && reason.contains("replay_relevant")
    ));
}

#[test]
fn duplicate_service_key_conflicts() {
    let s = scope("app");
    let mut registry = ContributionRegistry::new(ServiceRegistry::new());
    let k = ServiceKey {
        scope: s.clone(),
        name: "db".into(),
    };
    let svc1 = Contribution {
        scope: s.clone(),
        kind: ContributionKind::Service(ServiceContribution {
            key: k.clone(),
            provider: provider("db", 1),
            deps: vec![],
        }),
    };
    let svc2 = Contribution {
        scope: s.clone(),
        kind: ContributionKind::Service(ServiceContribution {
            key: k.clone(),
            provider: provider("db", 2),
            deps: vec![],
        }),
    };
    // staged vs staged
    let err = registry
        .validate(&[svc1.clone(), svc2.clone()])
        .unwrap_err();
    assert!(matches!(
        err,
        ScopeError::Conflict {
            kind: "service",
            ref scope,
            ref name,
            ..
        } if scope == &s && name == "db"
    ));
    // staged vs registry
    validate_and_apply(&mut registry, &s, &[svc1]);
    let err = registry.validate(&[svc2]).unwrap_err();
    assert!(matches!(
        err,
        ScopeError::Conflict {
            kind: "service",
            ..
        }
    ));
}

#[test]
fn duplicate_projection_slot_ordering_conflicts() {
    let s = scope("app");
    let mut registry = ContributionRegistry::new(ServiceRegistry::new());
    let p1 = Contribution {
        scope: s.clone(),
        kind: ContributionKind::ProjectionStage(ProjectionStageContribution {
            slot: "main".into(),
            ordering: 10,
            handler: "h1".into(),
        }),
    };
    let p2 = Contribution {
        scope: s.clone(),
        kind: ContributionKind::ProjectionStage(ProjectionStageContribution {
            slot: "main".into(),
            ordering: 10,
            handler: "h2".into(),
        }),
    };
    let err = registry.validate(&[p1.clone(), p2.clone()]).unwrap_err();
    assert_eq!(
        err,
        ScopeError::Conflict {
            kind: "stage",
            scope: s.clone(),
            name: "main".into(),
            holder: "h1".into(),
            challenger: "h2".into(),
        }
    );
    // same slot, distinct ordering is fine
    let p3 = Contribution {
        scope: s.clone(),
        kind: ContributionKind::ProjectionStage(ProjectionStageContribution {
            slot: "main".into(),
            ordering: 20,
            handler: "h3".into(),
        }),
    };
    registry.validate(&[p1.clone(), p3]).unwrap();
    validate_and_apply(&mut registry, &s, &[p1]);
    let err = registry.validate(&[p2]).unwrap_err();
    assert!(matches!(err, ScopeError::Conflict { kind: "stage", .. }));
}

#[test]
fn duplicate_keymaps_layer() {
    let s = scope("app");
    let mut registry = ContributionRegistry::new(ServiceRegistry::new());
    let k1 = Contribution {
        scope: s.clone(),
        kind: ContributionKind::Keymap(keybinding("k".into(), "a1".into())),
    };
    let k2 = Contribution {
        scope: s.clone(),
        kind: ContributionKind::Keymap(keybinding("k".into(), "a2".into())),
    };
    // no conflict: both layers are stored
    registry.validate(&[k1.clone(), k2.clone()]).unwrap();
    registry.apply(&s, &[k1, k2]).unwrap();
    let keymaps: Vec<_> = registry
        .snapshot()
        .into_iter()
        .filter(|c| matches!(c.kind, ContributionKind::Keymap(_)))
        .collect();
    assert_eq!(keymaps.len(), 2);
    // lookup returns the LAST matching layer
    assert_eq!(registry.keymap_for(&s, "k").unwrap().action, "a2");
    assert!(registry.keymap_for(&s, "missing").is_none());
}

#[test]
fn duplicate_themes_merge_overlays() {
    let s = scope("app");
    let mut registry = ContributionRegistry::new(ServiceRegistry::new());
    let t1 = Contribution {
        scope: s.clone(),
        kind: ContributionKind::Theme(ThemeContribution {
            name: "t".into(),
            overlay: object(vec![field("colors", object(vec![field("bg", text("#000"))]))]),
        }),
    };
    let t2 = Contribution {
        scope: s.clone(),
        kind: ContributionKind::Theme(ThemeContribution {
            name: "t".into(),
            overlay: object(vec![field("fonts", object(vec![field("size", Json::Unsigned(14))]))]),
        }),
    };
    registry.validate(&[t1.clone(), t2.clone()]).unwrap();
    registry.apply(&s, &[t1, t2]).unwrap();
    // merged view: both layers' top-level keys present; one stored entry
    assert_eq!(
        registry.theme_overlay(&s, "t").unwrap().overlay,
        object(vec![field("colors", object(vec![field("bg", text("#000"))])), field("fonts", object(vec![field("size", Json::Unsigned(14))]))])
    );
    let themes: Vec<_> = registry
        .snapshot()
        .into_iter()
        .filter(|c| matches!(c.kind, ContributionKind::Theme(_)))
        .collect();
    assert_eq!(themes.len(), 1);
    // shallow merge: a later overlay's top-level key replaces the earlier one
    let t3 = Contribution {
        scope: s.clone(),
        kind: ContributionKind::Theme(ThemeContribution {
            name: "t".into(),
            overlay: object(vec![field("colors", object(vec![field("fg", text("#fff"))]))]),
        }),
    };
    registry.validate(std::slice::from_ref(&t3)).unwrap();
    registry.apply(&s, &[t3]).unwrap();
    assert_eq!(
        registry.theme_overlay(&s, "t").unwrap().overlay,
        object(vec![field("colors", object(vec![field("fg", text("#fff"))])), field("fonts", object(vec![field("size", Json::Unsigned(14))]))])
    );
}

#[test]
fn theme_overlay_must_be_a_json_object() {
    let s = scope("app");
    let registry = ContributionRegistry::new(ServiceRegistry::new());
    let bad = Contribution {
        scope: s.clone(),
        kind: ContributionKind::Theme(ThemeContribution {
            name: "t".into(),
            overlay: Json::List(vec![Json::Unsigned(1), Json::Unsigned(2), Json::Unsigned(3)]),
        }),
    };
    let err = registry.validate(&[bad]).unwrap_err();
    assert!(matches!(
        err,
        ScopeError::InvalidContribution { ref scope, reason }
            if scope == &s && reason.contains("JSON object")
    ));
}

#[test]
fn monotonic_guard_cannot_be_weakened() {
    let s = scope("app");
    let mut registry = ContributionRegistry::new(ServiceRegistry::new());
    let strong = Contribution {
        scope: s.clone(),
        kind: ContributionKind::Guard(GuardContribution {
            name: "g".into(),
            predicate: "p1".into(),
            monotonic: true,
        }),
    };
    validate_and_apply(&mut registry, &s, &[strong]);
    // replacing a monotonic guard with a non-monotonic one fails
    let weak = Contribution {
        scope: s.clone(),
        kind: ContributionKind::Guard(GuardContribution {
            name: "g".into(),
            predicate: "p2".into(),
            monotonic: false,
        }),
    };
    let err = registry.validate(&[weak]).unwrap_err();
    assert_eq!(
        err,
        ScopeError::Conflict {
            kind: "guard",
            scope: s.clone(),
            name: "g".into(),
            holder: "p1".into(),
            challenger: "p2".into(),
        }
    );
    // an equal-strength re-registration is fine and replaces the entry
    let strong2 = Contribution {
        scope: s.clone(),
        kind: ContributionKind::Guard(GuardContribution {
            name: "g".into(),
            predicate: "p1v2".into(),
            monotonic: true,
        }),
    };
    validate_and_apply(&mut registry, &s, &[strong2]);
    let guards: Vec<_> = registry
        .snapshot()
        .into_iter()
        .filter(|c| matches!(c.kind, ContributionKind::Guard(_)))
        .collect();
    assert_eq!(guards.len(), 1);
    assert!(matches!(
        &guards[0].kind,
        ContributionKind::Guard(GuardContribution { predicate, .. }) if predicate == "p1v2"
    ));
}

#[test]
fn apply_is_transactional_on_service_failure() {
    let s = scope("app");
    let mut registry = ContributionRegistry::new(ServiceRegistry::new());
    let mut store = CompositionStore::new(&registry, &digest_of);
    let key = ServiceKey {
        scope: s.clone(),
        name: "cyclic".into(),
    };
    let cmd = Contribution {
        scope: s.clone(),
        kind: ContributionKind::Command(CommandContribution {
            name: "tx-cmd".into(),
            handler: "h".into(),
        }),
    };
    // the self-dependency passes validate (key is free) but fails at
    // apply time (cycle detected by the service registry's publish)
    let svc = Contribution {
        scope: s.clone(),
        kind: ContributionKind::Service(ServiceContribution {
            key: key.clone(),
            provider: provider("cyclic", 1),
            deps: vec![ServiceDependency {
                key: key.clone(),
                required_version: 1,
            }],
        }),
    };
    let err = store
        .stage_publish(&[cmd.clone(), svc.clone()], &mut registry, &digest_of)
        .unwrap_err();
    assert!(matches!(
        err,
        ScopeError::Service(ServiceError::DependencyCycle { .. })
    ));
    // nothing from the rejected set is applied, and the epoch did not bump
    assert!(
        registry
            .snapshot()
            .iter()
            .all(|c| !matches!(&c.kind, ContributionKind::Command(cc) if cc.name == "tx-cmd"))
    );
    assert!(
        registry
            .snapshot()
            .iter()
            .all(|c| !matches!(&c.kind, ContributionKind::Service(sv) if sv.key == key))
    );
    assert_eq!(store.current().epoch, 0);
}

#[test]
fn snapshot_is_deterministic() {
    let s = scope("app");
    let set = full_set(&s);
    let mut registry = ContributionRegistry::new(ServiceRegistry::new());
    validate_and_apply(&mut registry, &s, &set);
    let snap1 = registry.snapshot();
    assert_eq!(snap1, registry.snapshot());
    // the same state built through a different input order snapshots
    // identically (same set, same providers, reversed apply order)
    let reversed: Vec<Contribution> = set.into_iter().rev().collect();
    let mut registry2 = ContributionRegistry::new(ServiceRegistry::new());
    validate_and_apply(&mut registry2, &s, &reversed);
    assert_eq!(snap1, registry2.snapshot());
}

#[test]
fn replace_command_requires_previous_holder() {
    let s = scope("app");
    let mut registry = ContributionRegistry::new(ServiceRegistry::new());
    let c1 = Contribution {
        scope: s.clone(),
        kind: ContributionKind::Command(CommandContribution {
            name: "run".into(),
            handler: "h1".into(),
        }),
    };
    validate_and_apply(&mut registry, &s, &[c1]);
    // correct previous holder replaces
    registry
        .replace_command(
            &s,
            "run",
            CommandContribution {
                name: "run".into(),
                handler: "h2".into(),
            },
            "h1",
        )
        .unwrap();
    // wrong previous holder is a conflict naming holder and challenger
    let err = registry
        .replace_command(
            &s,
            "run",
            CommandContribution {
                name: "run".into(),
                handler: "h3".into(),
            },
            "wrong",
        )
        .unwrap_err();
    assert_eq!(
        err,
        ScopeError::Conflict {
            kind: "command",
            scope: s.clone(),
            name: "run".into(),
            holder: "h2".into(),
            challenger: "h3".into(),
        }
    );
    // unknown name and mismatched name are invalid input
    let err = registry
        .replace_command(
            &s,
            "ghost",
            CommandContribution {
                name: "ghost".into(),
                handler: "h".into(),
            },
            "h2",
        )
        .unwrap_err();
    assert!(matches!(err, ScopeError::InvalidInput(_)));
    let err = registry
        .replace_command(
            &s,
            "run",
            CommandContribution {
                name: "other".into(),
                handler: "h".into(),
            },
            "h2",
        )
        .unwrap_err();
    assert!(matches!(err, ScopeError::InvalidInput(_)));
}

#[test]
fn replace_tool_ui_and_stage() {
    let s = scope("app");
    let mut registry = ContributionRegistry::new(ServiceRegistry::new());
    let set = vec![
        Contribution {
            scope: s.clone(),
            kind: ContributionKind::Tool(ToolContribution {
                name: "t".into(),
                manifest: object(vec![field("replay_relevant", Json::Bool(true))]),
                handler: "h1".into(),
            }),
        },
        Contribution {
            scope: s.clone(),
            kind: ContributionKind::UiMount(UiMountContribution {
                name: "u".into(),
                component: "Old".into(),
                slot: None,
            }),
        },
        Contribution {
            scope: s.clone(),
            kind: ContributionKind::ProjectionStage(ProjectionStageContribution {
                slot: "st".into(),
                ordering: 10,
                handler: "h1".into(),
            }),
        },
    ];
    validate_and_apply(&mut registry, &s, &set);
    registry
        .replace_tool(
            &s,
            "t",
            ToolContribution {
                name: "t".into(),
                manifest: object(vec![field("replay_relevant", Json::Bool(false))]),
                handler: "h2".into(),
            },
            "h1",
        )
        .unwrap();
    registry
        .replace_ui_mount(
            &s,
            "u",
            UiMountContribution {
                name: "u".into(),
                component: "New".into(),
                slot: None,
            },
            "Old",
        )
        .unwrap();
    registry
        .replace_stage(
            &s,
            "st",
            ProjectionStageContribution {
                slot: "st".into(),
                ordering: 10,
                handler: "h2".into(),
            },
            "h1",
        )
        .unwrap();
    // wrong holders are conflicts
    let err = registry
        .replace_tool(
            &s,
            "t",
            ToolContribution {
                name: "t".into(),
                manifest: object(vec![field("replay_relevant", Json::Bool(true))]),
                handler: "h3".into(),
            },
            "wrong",
        )
        .unwrap_err();
    assert!(matches!(err, ScopeError::Conflict { kind: "tool", .. }));
    let err = registry
        .replace_ui_mount(
            &s,
            "u",
            UiMountContribution {
                name: "u".into(),
                component: "X".into(),
                slot: None,
            },
            "wrong",
        )
        .unwrap_err();
    assert!(matches!(err, ScopeError::Conflict { kind: "ui", .. }));
    let err = registry
        .replace_stage(
            &s,
            "st",
            ProjectionStageContribution {
                slot: "st".into(),
                ordering: 10,
                handler: "h3".into(),
            },
            "wrong",
        )
        .unwrap_err();
    assert!(matches!(err, ScopeError::Conflict { kind: "stage", .. }));
    // the registry holds the replacements
    let snap = registry.snapshot();
    assert!(snap.iter().any(|c| matches!(
        &c.kind,
        ContributionKind::Tool(t) if t.handler == "h2"
    )));
    assert!(snap.iter().any(|c| matches!(
        &c.kind,
        ContributionKind::UiMount(u) if u.component == "New"
    )));
    assert!(snap.iter().any(|c| matches!(
        &c.kind,
        ContributionKind::ProjectionStage(p) if p.handler == "h2"
    )));
}

#[test]
fn remove_scope_with_cross_scope_dependents_requires_force() {
    let mut registry = ContributionRegistry::new(ServiceRegistry::new());
    let root = ScopePath(vec![]);
    let child = scope("agent");
    let root_key = ServiceKey {
        scope: root.clone(),
        name: "db".into(),
    };
    let child_key = ServiceKey {
        scope: child.clone(),
        name: "repo".into(),
    };
    let dep = ServiceDependency {
        key: root_key.clone(),
        required_version: 1,
    };
    let root_svc = Contribution {
        scope: root.clone(),
        kind: ContributionKind::Service(ServiceContribution {
            key: root_key.clone(),
            provider: provider("db", 1),
            deps: vec![],
        }),
    };
    let child_svc = Contribution {
        scope: child.clone(),
        kind: ContributionKind::Service(ServiceContribution {
            key: child_key.clone(),
            provider: provider("repo", 1),
            deps: vec![dep.clone()],
        }),
    };
    validate_and_apply(&mut registry, &root, &[root_svc]);
    validate_and_apply(&mut registry, &child, &[child_svc]);

    // force=false: the root service still has a dependent in another
    // scope; `dependents` names the dependent service (its key + version)
    let err = registry.remove_scope(&root, false).unwrap_err();
    assert_eq!(
        err,
        ScopeError::DependentsRemain {
            scope: root.clone(),
            dependents: vec![ServiceDependency {
                key: child_key.clone(),
                required_version: 1,
            }],
        }
    );

    // force=true: the dependent service is cascaded away
    let removed = registry.remove_scope(&root, true).unwrap();
    assert_eq!(removed.cascaded_scopes, vec![child.clone()]);
    assert!(removed.contributions.iter().any(|c| matches!(
        &c.kind,
        ContributionKind::Service(s) if s.key == root_key
    )));
    assert!(removed.contributions.iter().any(|c| matches!(
        &c.kind,
        ContributionKind::Service(s) if s.key == child_key
    )));
    assert!(registry.snapshot().is_empty());
}

#[test]
fn remove_scope_removes_all_contribution_kinds() {
    let s = scope("app");
    let mut registry = ContributionRegistry::new(ServiceRegistry::new());
    validate_and_apply(&mut registry, &s, &full_set(&s));
    let removed = registry.remove_scope(&s, false).unwrap();
    assert_eq!(removed.contributions.len(), 8);
    assert!(removed.cascaded_scopes.is_empty());
    assert!(registry.snapshot().is_empty());
}

#[test]
fn ui_slot_defaults_and_charset() {
    let s = scope("app");
    let mut registry = ContributionRegistry::new(ServiceRegistry::new());
    // None is the default slot; the registry normalizes it to "main" so
    // the composition digest is canonical.
    let set = vec![Contribution {
        scope: s.clone(),
        kind: ContributionKind::UiMount(UiMountContribution {
            name: "a".into(),
            component: "A".into(),
            slot: None,
        }),
    }];
    validate_and_apply(&mut registry, &s, &set);
    let snap = registry.snapshot();
    let ui = snap
        .iter()
        .find_map(|c| match &c.kind {
            ContributionKind::UiMount(u) if u.name == "a" => Some(u),
            _ => None,
        })
        .expect("mount registered");
    assert_eq!(ui.slot.as_deref(), Some("main"));
    // an explicit "main" mount is the same contribution (no conflict)
    validate_and_apply(
        &mut registry,
        &s,
        &[Contribution {
            scope: s.clone(),
            kind: ContributionKind::UiMount(UiMountContribution {
                name: "b".into(),
                component: "B".into(),
                slot: Some("main".into()),
            }),
        }],
    );
    let snap = registry.snapshot();
    let ui_b = snap
        .iter()
        .find_map(|c| match &c.kind {
            ContributionKind::UiMount(u) if u.name == "b" => Some(u),
            _ => None,
        })
        .expect("mount registered");
    assert_eq!(ui_b.slot.as_deref(), Some("main"));

    // canonical slots pass; the charset rejects anything else
    for ok in ["status", "header", "composer", "aux", "my_slot-2"] {
        let err = registry.validate(&[Contribution {
            scope: s.clone(),
            kind: ContributionKind::UiMount(UiMountContribution {
                name: format!("ok-{ok}"),
                component: "C".into(),
                slot: Some(ok.into()),
            }),
        }]);
        assert!(err.is_ok(), "slot {ok:?} must validate");
    }
    for bad in ["", "sp ace", "semi;colon", "dots.in", "xxxxxxxxxxxxxxxxxxxxxxxxxxxxxxxxxxxxxxxx"] {
        let err = registry
            .validate(&[Contribution {
                scope: s.clone(),
                kind: ContributionKind::UiMount(UiMountContribution {
                    name: format!("bad-{bad}"),
                    component: "C".into(),
                    slot: Some(bad.to_string()),
                }),
            }])
            .unwrap_err();
        assert!(
            matches!(err, ScopeError::InvalidContribution { .. }),
            "slot {bad:?} must be rejected"
        );
    }
}

#[test]
fn remove_contributions_drops_matching_entries_idempotently() {
    let s = scope("app");
    let mut registry = ContributionRegistry::new(ServiceRegistry::new());
    validate_and_apply(&mut registry, &s, &full_set(&s));
    assert_eq!(registry.snapshot().len(), 8);

    let ui_mount = Contribution {
        scope: s.clone(),
        kind: ContributionKind::UiMount(UiMountContribution {
            name: "header".into(),
            component: "Header".into(),
            slot: None,
        }),
    };
    let theme = Contribution {
        scope: s.clone(),
        kind: ContributionKind::Theme(ThemeContribution {
            name: "t".into(),
            overlay: object(vec![field("colors", object(vec![field("bg", text("#000"))]))]),
        }),
    };
    registry.remove_contributions(&[ui_mount.clone()]).unwrap();
    assert_eq!(registry.snapshot().len(), 7);
    assert!(registry.snapshot().iter().all(|c| !matches!(
        &c.kind,
        ContributionKind::UiMount(u) if u.name == "header"
    )));
    // idempotent: removing the same (already gone) entry is a no-op
    registry.remove_contributions(&[ui_mount]).unwrap();
    assert_eq!(registry.snapshot().len(), 7);

    registry.remove_contributions(&[theme]).unwrap();
    assert_eq!(registry.snapshot().len(), 6);

    // service removals are rejected (they live in the shared registry)
    let svc = Contribution {
        scope: s.clone(),
        kind: ContributionKind::Service(ServiceContribution {
            key: ServiceKey {
                scope: s.clone(),
                name: "svc".into(),
            },
            provider: provider("svc", 1),
            deps: vec![],
        }),
    };
    let err = registry.remove_contributions(&[svc]).unwrap_err();
    assert!(matches!(err, ScopeError::InvalidContribution { .. }));
    assert_eq!(registry.snapshot().len(), 6, "failed removal mutates nothing");
}

fn settings(scope: &ScopePath, s: SettingsContribution) -> Contribution {
    Contribution {
        scope: scope.clone(),
        kind: ContributionKind::Settings(s),
    }
}

fn provider_with_key(key: KeyReference) -> ProviderSettings {
    ProviderSettings {
        base_url: None,
        model: None,
        protocol: None,
        key: Some(key),
        fake: None,
    }
}

#[test]
fn duplicate_settings_merge_field_wise_later_wins() {
    let s = scope("app");
    let mut registry = ContributionRegistry::new(ServiceRegistry::new());
    let first = settings(
        &s,
        SettingsContribution {
            provider: Some(ProviderSettings {
                base_url: Some("https://a.example".into()),
                model: Some("m1".into()),
                protocol: None,
                key: None,
                fake: None,
            }),
            approval: Some(ApprovalSettings {
                auto_approve: Some(true),
                yolo: None,
            }),
        },
    );
    let second = settings(
        &s,
        SettingsContribution {
            provider: Some(ProviderSettings {
                base_url: Some("https://b.example".into()),
                model: None,
                protocol: Some("openai".into()),
                key: Some(KeyReference::Env { name: "KEY".into() }),
                fake: Some(true),
            }),
            approval: Some(ApprovalSettings {
                auto_approve: None,
                yolo: Some(false),
            }),
        },
    );
    // overlay kind: two Settings contributions never conflict
    registry.validate(&[first.clone(), second.clone()]).unwrap();
    registry.apply(&s, &[first, second]).unwrap();

    let merged = registry.settings_for(&s).expect("settings registered");
    let p = merged.provider.as_ref().expect("provider present");
    assert_eq!(
        p.base_url.as_deref(),
        Some("https://b.example"),
        "later wins"
    );
    assert_eq!(
        p.model.as_deref(),
        Some("m1"),
        "incoming None keeps existing"
    );
    assert_eq!(p.protocol.as_deref(), Some("openai"));
    assert_eq!(p.key, Some(KeyReference::Env { name: "KEY".into() }));
    assert_eq!(p.fake, Some(true));
    let a = merged.approval.as_ref().expect("approval present");
    assert_eq!(a.auto_approve, Some(true), "incoming None keeps existing");
    assert_eq!(a.yolo, Some(false));

    let count = registry
        .snapshot()
        .iter()
        .filter(|c| matches!(c.kind, ContributionKind::Settings(_)))
        .count();
    assert_eq!(count, 1, "one effective settings entry per scope");
}

#[test]
fn settings_partial_overlay_does_not_clobber_earlier_fields() {
    let s = scope("app");
    let mut registry = ContributionRegistry::new(ServiceRegistry::new());
    validate_and_apply(
        &mut registry,
        &s,
        &[settings(
            &s,
            SettingsContribution {
                provider: Some(ProviderSettings {
                    base_url: Some("https://a.example".into()),
                    model: None,
                    protocol: None,
                    key: None,
                    fake: None,
                }),
                approval: None,
            },
        )],
    );
    // a layer that only sets provider.model must not clobber base_url
    validate_and_apply(
        &mut registry,
        &s,
        &[settings(
            &s,
            SettingsContribution {
                provider: Some(ProviderSettings {
                    base_url: None,
                    model: Some("m2".into()),
                    protocol: None,
                    key: None,
                    fake: None,
                }),
                approval: None,
            },
        )],
    );
    let merged = registry.settings_for(&s).expect("settings registered");
    let p = merged.provider.as_ref().expect("provider present");
    assert_eq!(p.base_url.as_deref(), Some("https://a.example"));
    assert_eq!(p.model.as_deref(), Some("m2"));
}

#[test]
fn settings_empty_key_reference_is_rejected() {
    let s = scope("app");
    let registry = ContributionRegistry::new(ServiceRegistry::new());
    let cases = [
        KeyReference::Env {
            name: String::new(),
        },
        KeyReference::Keychain {
            service: String::new(),
            account: "acct".into(),
        },
        KeyReference::Keychain {
            service: "svc".into(),
            account: String::new(),
        },
    ];
    for key in cases {
        let c = settings(
            &s,
            SettingsContribution {
                provider: Some(provider_with_key(key.clone())),
                approval: None,
            },
        );
        let err = registry.validate(&[c]).unwrap_err();
        assert!(
            matches!(err, ScopeError::InvalidContribution { ref scope, .. } if scope == &s),
            "empty key reference {key:?} must be rejected"
        );
    }
    // a well-formed key reference validates
    let ok = settings(
        &s,
        SettingsContribution {
            provider: Some(provider_with_key(KeyReference::Keychain {
                service: "svc".into(),
                account: "acct".into(),
            })),
            approval: None,
        },
    );
    registry.validate(&[ok]).unwrap();
}

#[test]
fn remove_scope_drops_settings() {
    let s = scope("app");
    let mut registry = ContributionRegistry::new(ServiceRegistry::new());
    validate_and_apply(
        &mut registry,
        &s,
        &[settings(
            &s,
            SettingsContribution {
                provider: Some(ProviderSettings {
                    base_url: Some("https://a.example".into()),
                    model: None,
                    protocol: None,
                    key: None,
                    fake: None,
                }),
                approval: None,
            },
        )],
    );
    assert!(registry.settings_for(&s).is_some());
    let removed = registry.remove_scope(&s, false).unwrap();
    assert!(registry.settings_for(&s).is_none(), "settings dropped");
    assert!(registry.snapshot().is_empty());
    assert!(
        removed
            .contributions
            .iter()
            .any(|c| matches!(c.kind, ContributionKind::Settings(_)))
    );
}

#[test]
fn settings_kind_does_not_alter_existing_kind_encodings() {
    // the composition digest domain is unchanged for existing kinds: the
    // externally-tagged byte shape of every pre-existing variant is stable.
    let s = scope("app");
    let theme = Contribution {
        scope: s.clone(),
        kind: ContributionKind::Theme(ThemeContribution {
            name: "t".into(),
            overlay: object(vec![field("a", Json::Unsigned(1))]),
        }),
    };
    assert_eq!(
        normalize(theme.encode().get("kind").unwrap()),
        object(vec![field(
            "Theme",
            object(vec![
                field("name", text("t")),
                field("overlay", object(vec![field("a", Json::Unsigned(1))])),
            ])
        )])
    );
    let plain = SettingsContribution {
        provider: None,
        approval: None,
    };
    assert_eq!(ContributionKind::Settings(plain.clone()).kind_tag(), "settings");
    assert_eq!(
        normalize(settings(&s, plain).encode().get("kind").unwrap()),
        object(vec![field(
            "Settings",
            object(vec![field("provider", Json::Null), field("approval", Json::Null)])
        )])
    );
}

// --- precedence-driven replacement ---

fn command(s: &ScopePath, name: &str, handler: &str) -> Contribution {
    Contribution {
        scope: s.clone(),
        kind: ContributionKind::Command(CommandContribution {
            name: name.into(),
            handler: handler.into(),
        }),
    }
}

fn tool(s: &ScopePath, name: &str, handler: &str) -> Contribution {
    Contribution {
        scope: s.clone(),
        kind: ContributionKind::Tool(ToolContribution {
            name: name.into(),
            manifest: object(vec![field("replay_relevant", Json::Bool(true))]),
            handler: handler.into(),
        }),
    }
}

fn service(s: &ScopePath, name: &str, provider: ServiceProvider) -> Contribution {
    Contribution {
        scope: s.clone(),
        kind: ContributionKind::Service(ServiceContribution {
            key: ServiceKey {
                scope: s.clone(),
                name: name.into(),
            },
            provider,
            deps: vec![],
        }),
    }
}

fn plan(removed: Vec<Contribution>) -> OverridePlan {
    OverridePlan { removed }
}

/// A higher-precedence layer replaces a lower command/tool of the same
/// (scope, name); validation accepts it only because the plan names the
/// displaced holder, and exactly one holder remains afterwards.
#[test]
fn override_plan_replaces_lower_command_and_tool() {
    let s = scope("app");
    let mut registry = ContributionRegistry::new(ServiceRegistry::new());
    let lower_cmd = command(&s, "run", "builtin_h");
    let lower_tool = tool(&s, "sh", "builtin_t");
    validate_and_apply(&mut registry, &s, &[lower_cmd.clone(), lower_tool.clone()]);

    let higher_cmd = command(&s, "run", "project_h");
    let higher_tool = tool(&s, "sh", "project_t");
    let pl = plan(vec![lower_cmd, lower_tool]);
    // without the plan the higher layer conflicts
    assert!(registry.validate(&[higher_cmd.clone()]).is_err());
    registry
        .validate_planned(&[higher_cmd.clone(), higher_tool.clone()], &pl)
        .unwrap();
    registry
        .apply_planned(
            &s,
            &[higher_cmd.clone(), higher_tool.clone()],
            &pl,
        )
        .unwrap();

    let snap = registry.snapshot();
    let commands: Vec<_> = snap
        .iter()
        .filter_map(|c| match &c.kind {
            ContributionKind::Command(cmd) => Some(cmd.handler.as_str()),
            _ => None,
        })
        .collect();
    let tools: Vec<_> = snap
        .iter()
        .filter_map(|c| match &c.kind {
            ContributionKind::Tool(t) => Some(t.handler.as_str()),
            _ => None,
        })
        .collect();
    assert_eq!(commands, ["project_h"], "one command holder, the higher one");
    assert_eq!(tools, ["project_t"], "one tool holder, the higher one");
}

/// A higher-precedence layer replaces a lower service provider at the same
/// key; the lower provider no longer resolves and the higher one does.
#[test]
fn override_plan_replaces_lower_service_provider() {
    let s = scope("app");
    let mut registry = ContributionRegistry::new(ServiceRegistry::new());
    let lower = service(&s, "greeter", provider("greeter", 1));
    validate_and_apply(&mut registry, &s, &[lower.clone()]);

    let higher_provider = provider("greeter", 3);
    let higher = service(&s, "greeter", higher_provider.clone());
    let pl = plan(vec![lower]);
    assert!(registry.validate(&[higher.clone()]).is_err());
    registry.validate_planned(&[higher.clone()], &pl).unwrap();
    registry.apply_planned(&s, &[higher], &pl).unwrap();

    let reg = registry.services();
    let resolved = reg
        .resolve(
            &ServiceKey {
                scope: s.clone(),
                name: "greeter".into(),
            },
            3,
            &s,
        )
        .expect("higher provider resolves")
        .clone();
    assert_eq!(resolved.contract.version, 3);
    assert_eq!(resolved.module_id, higher_provider.module_id);
    assert!(
        reg.resolve(
            &ServiceKey {
                scope: s.clone(),
                name: "greeter".into(),
            },
            1,
            &s,
        )
        .is_err(),
        "the lower v1 provider is gone"
    );
}

/// Keymaps, themes and settings are layered/merged kinds: a plan never
/// names them, and both layers survive with later-wins semantics.
#[test]
fn keymaps_themes_and_settings_still_layer() {
    let s = scope("app");
    let mut registry = ContributionRegistry::new(ServiceRegistry::new());
    let lower_keymap = Contribution {
        scope: s.clone(),
        kind: ContributionKind::Keymap(keybinding("ctrl-k".into(), "lower".into())),
    };
    let lower_theme = Contribution {
        scope: s.clone(),
        kind: ContributionKind::Theme(ThemeContribution {
            name: "default".into(),
            overlay: object(vec![field("bg", text("black")), field("fg", text("white"))]),
        }),
    };
    validate_and_apply(
        &mut registry,
        &s,
        &[
            lower_keymap.clone(),
            lower_theme.clone(),
            settings(
                &s,
                SettingsContribution {
                    approval: Some(ApprovalSettings {
                        auto_approve: Some(true),
                        yolo: None,
                    }),
                    provider: None,
                },
            ),
        ],
    );

    let higher_keymap = Contribution {
        scope: s.clone(),
        kind: ContributionKind::Keymap(keybinding("ctrl-k".into(), "higher".into())),
    };
    let higher_theme = Contribution {
        scope: s.clone(),
        kind: ContributionKind::Theme(ThemeContribution {
            name: "default".into(),
            overlay: object(vec![field("bg", text("blue"))]),
        }),
    };
    // A plan removing an unrelated entry must not disturb the layered kinds.
    let unrelated = command(&s, "unrelated", "h");
    validate_and_apply(&mut registry, &s, &[unrelated.clone()]);
    let pl = plan(vec![unrelated]);
    registry
        .validate_planned(&[higher_keymap.clone(), higher_theme.clone()], &pl)
        .unwrap();
    registry
        .apply_planned(&s, &[higher_keymap, higher_theme], &pl)
        .unwrap();

    assert_eq!(
        registry.keymap_for(&s, "ctrl-k").map(|k| k.action.as_str()),
        Some("higher"),
        "keymap layers, last wins"
    );
    let theme = registry.theme_overlay(&s, "default").unwrap();
    assert_eq!(theme.overlay, object(vec![field("bg", text("blue")), field("fg", text("white"))]));
    assert_eq!(
        registry
            .settings_for(&s)
            .and_then(|s| s.approval.as_ref())
            .and_then(|a| a.auto_approve),
        Some(true),
        "lower settings layer survives"
    );
}

/// A precedence plan never un-merges settings (the intended
/// asymmetry) — a displaced lower layer's fields survive. An explicit
/// `remove_contributions` DOES drop the scope's merged settings.
#[test]
fn override_plan_never_unmerges_settings() {
    let s = scope("app");
    let mut registry = ContributionRegistry::new(ServiceRegistry::new());
    let lower = settings(
        &s,
        SettingsContribution {
            approval: Some(ApprovalSettings {
                auto_approve: Some(true),
                yolo: None,
            }),
            provider: None,
        },
    );
    validate_and_apply(&mut registry, &s, &[lower.clone()]);

    let higher = settings(
        &s,
        SettingsContribution {
            provider: Some(ProviderSettings {
                model: Some("m".into()),
                ..Default::default()
            }),
            approval: None,
        },
    );
    let pl = plan(vec![lower]);
    registry.validate_planned(&[higher.clone()], &pl).unwrap();
    registry.apply_planned(&s, &[higher], &pl).unwrap();

    let merged = registry.settings_for(&s).unwrap();
    assert_eq!(
        merged
            .approval
            .as_ref()
            .and_then(|a| a.auto_approve),
        Some(true),
        "the plan does not un-merge the lower settings layer"
    );
    assert_eq!(
        merged.provider.as_ref().and_then(|p| p.model.as_deref()),
        Some("m")
    );

    registry
        .remove_contributions(&[settings(&s, merged.clone())])
        .unwrap();
    assert!(
        registry.settings_for(&s).is_none(),
        "an explicit removal drops the scope's merged settings"
    );
}

/// Safe-mode rollback: overlay kinds cannot be un-merged by
/// name, so `recompose_overlays` replays only the surviving layers'
/// overlays — a dropped layer's settings/theme residue is gone.
#[test]
fn recompose_overlays_drops_a_layer_residue() {
    let s = scope("");
    let mut registry = ContributionRegistry::new(ServiceRegistry::new());
    let builtin = settings(
        &s,
        SettingsContribution {
            provider: Some(ProviderSettings {
                protocol: Some("openai".into()),
                ..Default::default()
            }),
            approval: Some(ApprovalSettings {
                auto_approve: Some(false),
                yolo: Some(false),
            }),
        },
    );
    let user = settings(
        &s,
        SettingsContribution {
            provider: Some(ProviderSettings {
                model: Some("user-model".into()),
                ..Default::default()
            }),
            approval: Some(ApprovalSettings {
                auto_approve: Some(true),
                yolo: None,
            }),
        },
    );
    validate_and_apply(&mut registry, &s, &[builtin.clone(), user]);
    let merged = registry.settings_for(&s).unwrap();
    assert_eq!(merged.approval.as_ref().unwrap().auto_approve, Some(true));

    // Drop the user layer: replay only the built-in overlay.
    registry.recompose_overlays(&s, &[builtin]);
    let rebuilt = registry.settings_for(&s).unwrap();
    let approval = rebuilt.approval.as_ref().unwrap();
    assert_eq!(approval.auto_approve, Some(false), "user overlay is gone");
    assert_eq!(approval.yolo, Some(false), "built-in default survives");
    assert_eq!(
        rebuilt.provider.as_ref().and_then(|p| p.model.as_deref()),
        None,
        "user provider field is gone"
    );
}

// ---------- what a removal takes and leaves ----------

fn sorted_texts(list: &[Contribution]) -> Vec<String> {
    let mut out: Vec<String> = list.iter().map(|c| format!("{c:?}")).collect();
    out.sort();
    out
}

#[test]
fn a_removal_splits_the_snapshot() {
    let a = scope("app");
    let b = scope("other");
    let mut registry = ContributionRegistry::new(ServiceRegistry::new());
    validate_and_apply(&mut registry, &a, &full_set(&a));
    validate_and_apply(&mut registry, &b, &[command(&b, "run", "h"), tool(&b, "t", "h")]);
    let before = registry.snapshot();
    let removed = registry.remove_scope(&a, false).unwrap();
    let after = registry.snapshot();
    let mut both = removed.contributions.clone();
    both.extend(after.clone());
    assert_eq!(sorted_texts(&both), sorted_texts(&before));
    assert!(after.iter().all(|c| c.scope != a));
    let again = registry.remove_scope(&a, false).unwrap();
    assert!(again.contributions.is_empty());
    assert!(again.cascaded_scopes.is_empty());
    assert_eq!(registry.snapshot(), after);
}

#[test]
fn any_order_of_a_set_gives_one_snapshot() {
    let s = scope("app");
    let set = full_set(&s);
    let mut first = ContributionRegistry::new(ServiceRegistry::new());
    validate_and_apply(&mut first, &s, &set);
    for turn in 1..set.len() {
        let mut rotated = set.clone();
        rotated.rotate_left(turn);
        let mut other = ContributionRegistry::new(ServiceRegistry::new());
        validate_and_apply(&mut other, &s, &rotated);
        assert_eq!(first.snapshot(), other.snapshot());
    }
}

#[test]
fn stages_stand_in_the_order_of_their_numbers() {
    let s = scope("app");
    let stage = |ordering: u32| Contribution {
        scope: s.clone(),
        kind: ContributionKind::ProjectionStage(ProjectionStageContribution {
            slot: "slot".into(),
            ordering,
            handler: "h".into(),
        }),
    };
    let mut registry = ContributionRegistry::new(ServiceRegistry::new());
    validate_and_apply(&mut registry, &s, &[stage(10), stage(9), stage(100)]);
    let numbers: Vec<u32> = registry
        .snapshot()
        .iter()
        .map(|c| match &c.kind {
            ContributionKind::ProjectionStage(p) => p.ordering,
            other => panic!("a stage, got {other:?}"),
        })
        .collect();
    assert_eq!(numbers, vec![9, 10, 100]);
}

#[test]
fn every_change_changes_the_bytes_of_a_composition() {
    let s = scope("app");
    let bytes = |set: &[Contribution]| {
        let mut registry = ContributionRegistry::new(ServiceRegistry::new());
        validate_and_apply(&mut registry, &s, set);
        CompositionStore::new(&registry, &digest_of)
            .current()
            .to_canonical_bytes()
    };
    let one = bytes(&[command(&s, "run", "h1")]);
    assert_ne!(one, bytes(&[command(&s, "run", "h2")]));
    assert_ne!(one, bytes(&[command(&s, "walk", "h1")]));
    assert_ne!(one, bytes(&[tool(&s, "run", "h1")]));
    assert_ne!(one, bytes(&[]));
    assert_eq!(one, bytes(&[command(&s, "run", "h1")]));
}
