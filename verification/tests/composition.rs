//! The laws of the service graph, the contribution registry and the layers, on
//! concrete values.
use kanbei::activation::{activate_config, publish_failure, replace_module, PublishError};
use kanbei::branch::config_choice_at;
use kanbei::contribution::{
    ApprovalSettings, CommandContribution, ContextPredicate, Contribution, ContributionKind,
    GuardContribution, HookContribution, HookKind, KeyContext, KeyReference, Keybinding,
    KeymapOrigin, ProviderSettings, ServiceContribution, SettingsContribution, ThemeContribution,
    ToolContribution,
};
use kanbei::elements::{
    activation_event, config_digest, config_layer_digests, config_manifest, generation_entries,
    replacement_event, restack_layer, snapshot_settings, stack_layer, ConfigLayer,
};
use kanbei::epoch::CompositionStore;
use kanbei::errors::ScopeError;
use kanbei::event::{Codec, Event, LogRecord, Payload, Reading};
use kanbei::hooks::LiveModule;
use kanbei::ids::{Digest, Id128};
use kanbei::json::{object, render, text_json, Field, Json};
use kanbei::layers::{override_plan, settle_overlays, LayerSource};
use kanbei::package::{ModuleOrigin, PackageManifest, TrustClass};
use kanbei::registry::{ContributionRegistry, OverridePlan};
use kanbei::replacement::plan_replacement;
use kanbei::rules::merge_settings;
use kanbei::scope_tree::{OwnerLease, ScopeTree};
use kanbei::services::{
    ScopePath, ServiceContract, ServiceDependency, ServiceError, ServiceKey, ServiceProvider,
    ServiceRegistry,
};
use kanbei::session_error::SessionError;
use kanbei::settings_gate::{gate_settings_contributions, valid_base_url};

fn digest_of(bytes: Vec<u8>) -> Digest {
    let mut hash: u64 = 0xcbf29ce484222325;
    for b in bytes {
        hash ^= b as u64;
        hash = hash.wrapping_mul(0x100000001b3);
    }
    Digest {
        text: format!("{hash:016x}"),
    }
}

fn digest(t: &str) -> Digest {
    Digest {
        text: t.to_string(),
    }
}

fn id(t: &str) -> Id128 {
    Id128 {
        text: t.to_string(),
    }
}

fn path(parts: &[&str]) -> ScopePath {
    ScopePath(parts.iter().map(|s| s.to_string()).collect())
}

fn key(parts: &[&str], name: &str) -> ServiceKey {
    ServiceKey {
        scope: path(parts),
        name: name.to_string(),
    }
}

fn provider(module: &str, generation: u64, name: &str, version: u32) -> ServiceProvider {
    ServiceProvider {
        module_id: id(module),
        generation,
        contract: ServiceContract {
            name: name.to_string(),
            version,
        },
    }
}

fn dep(key: ServiceKey, required_version: u32) -> ServiceDependency {
    ServiceDependency {
        key,
        required_version,
    }
}

fn command(scope: &ScopePath, name: &str, handler: &str) -> Contribution {
    Contribution {
        scope: scope.clone(),
        kind: ContributionKind::Command(CommandContribution {
            name: name.to_string(),
            handler: handler.to_string(),
        }),
    }
}

fn keymap(scope: &ScopePath, key: &str, action: &str) -> Contribution {
    Contribution {
        scope: scope.clone(),
        kind: ContributionKind::Keymap(Keybinding {
            key: key.to_string(),
            context: ContextPredicate::Always,
            action: action.to_string(),
            origin: KeymapOrigin::Builtin,
            owner: None,
        }),
    }
}

fn guard(scope: &ScopePath, name: &str, monotonic: bool) -> Contribution {
    Contribution {
        scope: scope.clone(),
        kind: ContributionKind::Guard(GuardContribution {
            name: name.to_string(),
            predicate: "p".to_string(),
            monotonic,
        }),
    }
}

fn settings(scope: &ScopePath, s: SettingsContribution) -> Contribution {
    Contribution {
        scope: scope.clone(),
        kind: ContributionKind::Settings(s),
    }
}

fn provider_settings(model: Option<&str>, protocol: Option<&str>) -> SettingsContribution {
    SettingsContribution {
        provider: Some(ProviderSettings {
            base_url: None,
            model: model.map(|s| s.to_string()),
            protocol: protocol.map(|s| s.to_string()),
            key: None,
            fake: None,
        }),
        approval: None,
    }
}

fn approval_settings(auto_approve: Option<bool>, yolo: Option<bool>) -> SettingsContribution {
    SettingsContribution {
        provider: None,
        approval: Some(ApprovalSettings { auto_approve, yolo }),
    }
}

fn no_settings() -> SettingsContribution {
    SettingsContribution {
        provider: None,
        approval: None,
    }
}

fn registry() -> ContributionRegistry {
    ContributionRegistry::new(ServiceRegistry::new())
}

fn manifest(module: &str, origin: ModuleOrigin) -> PackageManifest {
    PackageManifest {
        schema: 1,
        module_id: id(module),
        origin,
        trust_class: TrustClass::User,
        scope: path(&[]),
        deps: vec![],
        capabilities: vec![],
        source: String::new(),
        state_schema: None,
        state_key: None,
    }
}

fn layer(module: &str, origin: ModuleOrigin, rank: u8, generation: u64) -> ConfigLayer {
    ConfigLayer {
        rank,
        module_id: id(module),
        generation,
        package: digest(&format!("package-{module}-{generation}")),
        manifest: manifest(module, origin),
    }
}

// ---------- services ----------

#[test]
fn published_services_resolve_below_and_only_there() {
    let mut reg = ServiceRegistry::new();
    reg.publish(key(&["a"], "svc"), provider("m", 1, "svc", 2))
        .unwrap();
    let k = key(&["a"], "svc");
    assert_eq!(
        reg.resolve(&k, 2, &path(&["a", "b"])).unwrap().module_id,
        id("m")
    );
    assert!(matches!(
        reg.resolve(&k, 2, &path(&[])),
        Err(ServiceError::ScopeViolation { .. })
    ));
    assert!(matches!(
        reg.resolve(&key(&["a"], "other"), 1, &path(&["a"])),
        Err(ServiceError::Unresolved {
            required_version: 1,
            ..
        })
    ));
}

#[test]
fn publishing_keeps_others_and_removing_undoes_it() {
    let mut reg = ServiceRegistry::new();
    reg.publish(key(&[], "x"), provider("m", 1, "x", 1)).unwrap();
    let before = reg.snapshot();
    reg.publish(key(&[], "y"), provider("n", 1, "y", 1)).unwrap();
    assert_eq!(
        reg.resolve(&key(&[], "x"), 1, &path(&[])).unwrap(),
        &provider("m", 1, "x", 1)
    );
    reg.remove(&key(&[], "y"), &id("n")).unwrap();
    assert_eq!(reg.snapshot(), before);
}

#[test]
fn removal_strands_nobody_and_needs_the_owner() {
    let mut reg = ServiceRegistry::new();
    reg.publish(key(&[], "x"), provider("m", 1, "x", 1)).unwrap();
    reg.publish_with_deps(
        key(&[], "y"),
        provider("n", 1, "y", 1),
        &[dep(key(&[], "x"), 1)],
    )
    .unwrap();
    assert_eq!(reg.dependents_of(&key(&[], "x")), vec![dep(key(&[], "y"), 1)]);
    let e = reg.remove(&key(&[], "x"), &id("m")).unwrap_err();
    assert_eq!(
        e.text(),
        "service `//x` still has dependents: [ServiceDependency { key: ServiceKey { scope: \
         ScopePath([]), name: \"y\" }, required_version: 1 }]"
    );
    let e = reg.remove(&key(&[], "y"), &id("m")).unwrap_err();
    assert_eq!(e.text(), "module m does not own service `//y`");
    reg.remove(&key(&[], "y"), &id("n")).unwrap();
    reg.remove(&key(&[], "x"), &id("m")).unwrap();
    assert!(reg.snapshot().is_empty());
}

#[test]
fn cycles_are_refused_exactly() {
    let mut reg = ServiceRegistry::new();
    reg.publish_with_deps(
        key(&[], "a"),
        provider("m", 1, "a", 1),
        &[dep(key(&[], "b"), 1)],
    )
    .unwrap();
    reg.publish_with_deps(
        key(&[], "b"),
        provider("m", 1, "b", 1),
        &[dep(key(&[], "c"), 1)],
    )
    .unwrap();
    let e = reg
        .publish_with_deps(
            key(&[], "c"),
            provider("m", 1, "c", 1),
            &[dep(key(&[], "a"), 1)],
        )
        .unwrap_err();
    assert!(matches!(e, ServiceError::DependencyCycle { .. }));
    assert!(e.text().starts_with("dependency cycle: "));
    assert!(e.text().contains(" -> "));
    reg.publish_with_deps(key(&[], "c"), provider("m", 1, "c", 1), &[])
        .unwrap();
    // A service that needs itself is a cycle of one.
    assert!(matches!(
        reg.publish_with_deps(
            key(&[], "d"),
            provider("m", 1, "d", 1),
            &[dep(key(&[], "d"), 1)],
        ),
        Err(ServiceError::DependencyCycle { .. })
    ));
}

#[test]
fn dependencies_reach_upward_only() {
    let mut reg = ServiceRegistry::new();
    reg.publish(key(&["a"], "x"), provider("m", 1, "x", 1)).unwrap();
    assert!(matches!(
        reg.publish_with_deps(
            key(&[], "y"),
            provider("n", 1, "y", 1),
            &[dep(key(&["a"], "x"), 1)],
        ),
        Err(ServiceError::ScopeViolation { .. })
    ));
}

#[test]
fn every_dependent_is_planned() {
    let mut reg = ServiceRegistry::new();
    reg.publish(key(&[], "x"), provider("m", 1, "x", 1)).unwrap();
    for (name, version) in [("same", 1), ("other", 1)] {
        reg.publish_with_deps(
            key(&[], name),
            provider("n", 1, name, 1),
            &[dep(key(&[], "x"), version)],
        )
        .unwrap();
    }
    let plan = plan_replacement(&reg, &key(&[], "x"), &provider("m", 2, "x", 1)).unwrap();
    assert_eq!(plan.rebind.len() + plan.restart.len(), 2);
    assert!(plan.restart.is_empty());
    let plan = plan_replacement(&reg, &key(&[], "x"), &provider("m", 2, "x", 2)).unwrap();
    assert!(plan.rebind.is_empty());
    assert_eq!(plan.restart.len(), 2);
}

#[test]
fn service_messages_are_exact() {
    let k = key(&["a", "b"], "svc");
    assert_eq!(k.text(), "/a/b/svc");
    assert_eq!(
        ServiceError::Conflict {
            key: k.clone(),
            holder: provider("m", 1, "svc", 2),
            challenger: provider("n", 3, "svc", 2),
        }
        .text(),
        format!(
            "service `/a/b/svc` is held by {:?}; challenger {:?} cannot take it over",
            provider("m", 1, "svc", 2),
            provider("n", 3, "svc", 2)
        )
    );
    assert_eq!(
        ServiceError::Unresolved {
            key: k.clone(),
            required_version: 7
        }
        .text(),
        "service `/a/b/svc` at required version 7 is not published"
    );
    assert_eq!(
        ServiceError::ScopeViolation {
            key: k.clone(),
            caller_scope: path(&[]),
            reason: "no".to_string()
        }
        .text(),
        "scope violation resolving `/a/b/svc` from caller scope `/`: no"
    );
    assert_eq!(
        ServiceError::DependencyCycle {
            path: vec!["x".to_string(), "y".to_string(), "x".to_string()]
        }
        .text(),
        "dependency cycle: x -> y -> x"
    );
    let quoted = dep(key(&["a\"b"], "svc"), 3);
    assert_eq!(
        ServiceError::DependentsExist {
            key: k.clone(),
            dependents: vec![quoted.clone(), quoted.clone()]
        }
        .text(),
        format!(
            "service `/a/b/svc` still has dependents: {:?}",
            vec![quoted.clone(), quoted.clone()]
        )
    );
    assert_eq!(
        ServiceError::VersionMismatch {
            key: k,
            required_version: 2,
            actual_version: 1
        }
        .text(),
        "service `/a/b/svc` is at version 1, required 2"
    );
    assert_eq!(
        ServiceError::InvalidInput("x".to_string()).text(),
        "invalid input: x"
    );
}

#[test]
fn scope_messages_are_exact() {
    assert_eq!(
        ScopeError::Conflict {
            kind: "command",
            scope: path(&["a"]),
            name: "n".to_string(),
            holder: "h".to_string(),
            challenger: "c".to_string()
        }
        .text(),
        "`command` contribution `n` in scope `/a` is held by h; challenger c"
    );
    assert_eq!(
        ScopeError::DuplicateScope {
            parent: path(&[]),
            name: "n".to_string()
        }
        .text(),
        "duplicate scope name `n` under parent `/`"
    );
    assert_eq!(
        ScopeError::StaleEpoch {
            staged: 1,
            current: 2
        }
        .text(),
        "stale staged set: built against epoch 1, current epoch is 2"
    );
    let d = vec![dep(key(&["a"], "svc"), 3)];
    assert_eq!(
        ScopeError::DependentsRemain {
            scope: path(&["a"]),
            dependents: d.clone()
        }
        .text(),
        format!("scope `/a` still has dependent services: {d:?}")
    );
    assert_eq!(
        ScopeError::InvalidContribution {
            scope: path(&["a"]),
            reason: "r".to_string()
        }
        .text(),
        "invalid contribution in scope `/a`: r"
    );
    assert_eq!(
        ScopeError::InvalidInput("x".to_string()).text(),
        "invalid input: x"
    );
    assert_eq!(
        ScopeError::Service(ServiceError::InvalidInput("x".to_string())).text(),
        "invalid input: x"
    );
}

// ---------- settings ----------

#[test]
fn settings_overlay_as_one_would_expect() {
    let a = provider_settings(Some("m1"), Some("openai"));
    let b = provider_settings(Some("m2"), None);
    let c = approval_settings(Some(true), None);
    let left = merge_settings(merge_settings(a.clone(), &b), &c);
    let right = merge_settings(a.clone(), &merge_settings(b.clone(), &c));
    assert_eq!(left, right);
    let p = left.provider.unwrap();
    assert_eq!(p.model.as_deref(), Some("m2"));
    assert_eq!(p.protocol.as_deref(), Some("openai"));
    assert_eq!(merge_settings(a.clone(), &no_settings()), a);
    assert_eq!(merge_settings(no_settings(), &a), a);
    let once = merge_settings(a, &b);
    assert_eq!(merge_settings(once.clone(), &b), once);
}

#[test]
fn gating_is_idempotent_and_lets_plain_settings_pass() {
    let mut s = provider_settings(Some("m"), Some("anthropic"));
    s.provider.as_mut().unwrap().key = Some(KeyReference::Keychain {
        service: "s".to_string(),
        account: "a".to_string(),
    });
    s.provider.as_mut().unwrap().base_url = Some("https://host/v1".to_string());
    let root = path(&[]);
    for origin in [
        ModuleOrigin::Agent,
        ModuleOrigin::UserInstalled,
        ModuleOrigin::Builtin,
    ] {
        let once = gate_settings_contributions(origin, vec![settings(&root, s.clone())]);
        let twice = gate_settings_contributions(origin, once.clone());
        assert_eq!(once, twice);
        let ContributionKind::Settings(g) = &once[0].kind else {
            panic!("settings")
        };
        assert_eq!(g.provider.as_ref().unwrap().model.as_deref(), Some("m"));
        assert_eq!(
            g.provider.as_ref().unwrap().key.is_some(),
            origin == ModuleOrigin::Builtin
        );
    }
}

#[test]
fn base_urls_need_a_scheme_and_a_host() {
    for ok in ["http://h", "https://h:1/v1", "https://h?x", "http://h#f"] {
        assert!(valid_base_url(ok), "{ok}");
    }
    for bad in ["", "h", "http://", "https:///p", "http://?x", "http://#f", "ftp://h", "HTTP://h"] {
        assert!(!valid_base_url(bad), "{bad}");
    }
}

// ---------- the registry ----------

#[test]
fn registering_touches_one_slot() {
    let s = path(&["app"]);
    let mut reg = registry();
    reg.apply(&s, &[command(&s, "a", "h1"), keymap(&s, "k", "x")])
        .unwrap();
    let before = reg.snapshot();
    reg.apply(&s, &[command(&s, "b", "h2")]).unwrap();
    let after = reg.snapshot();
    assert_eq!(after.len(), before.len() + 1);
    for c in &before {
        assert!(after.contains(c));
    }
    reg.apply(&s, &[keymap(&s, "k", "y")]).unwrap();
    assert_eq!(reg.keymap_for(&s, "k").unwrap().action, "y");
}

#[test]
fn theme_overlays_merge_shallowly() {
    let s = path(&["app"]);
    let theme = |fields: Vec<Field>| Contribution {
        scope: path(&["app"]),
        kind: ContributionKind::Theme(ThemeContribution {
            name: "t".to_string(),
            overlay: object(fields),
        }),
    };
    let f = |name: &str, value: Json| Field {
        name: name.to_string(),
        value,
    };
    let mut reg = registry();
    reg.apply(
        &s,
        &[theme(vec![
            f("a", object(vec![f("x", Json::Unsigned(1))])),
            f("b", Json::Unsigned(2)),
        ])],
    )
    .unwrap();
    reg.apply(&s, &[theme(vec![f("a", object(vec![f("y", Json::Unsigned(3))]))])])
        .unwrap();
    assert_eq!(
        render(&reg.theme_overlay(&s, "t").unwrap().overlay),
        r#"{"a":{"y":3},"b":2}"#
    );
}

#[test]
fn monotonic_guards_stay() {
    let s = path(&["app"]);
    let mut reg = registry();
    reg.apply(&s, &[guard(&s, "g", true)]).unwrap();
    let weaker = [guard(&s, "g", false)];
    assert!(reg.validate(&weaker).is_err());
    let plan = OverridePlan {
        removed: vec![guard(&s, "g", true)],
    };
    assert!(!plan.is_empty());
    assert!(reg.snapshot().contains(&guard(&s, "g", true)));
}

#[test]
fn plans_keep_settings_and_removal_is_idempotent() {
    let s = path(&["app"]);
    let mut reg = registry();
    let own = settings(&s, approval_settings(Some(true), None));
    reg.apply(&s, &[own.clone(), command(&s, "a", "h")]).unwrap();
    let plan = OverridePlan {
        removed: vec![own, command(&s, "a", "h")],
    };
    reg.validate_planned(&[command(&s, "a", "h2")], &plan).unwrap();
    reg.apply_planned(&s, &[command(&s, "a", "h2")], &plan).unwrap();
    assert_eq!(
        reg.settings_for(&s).unwrap().approval.unwrap().auto_approve,
        Some(true)
    );
    let gone = [command(&s, "a", "h2")];
    reg.remove_contributions(&gone).unwrap();
    let once = reg.snapshot();
    reg.remove_contributions(&gone).unwrap();
    assert_eq!(reg.snapshot(), once);
}

#[test]
fn scope_removal_is_complete_and_stays_in_scope() {
    let a = path(&["a"]);
    let b = path(&["b"]);
    let mut reg = registry();
    reg.apply(&a, &[command(&a, "x", "h"), keymap(&a, "k", "act")])
        .unwrap();
    reg.apply(&b, &[command(&b, "y", "h")]).unwrap();
    let removed = reg.remove_scope(&a, false).unwrap();
    assert_eq!(removed.contributions.len(), 2);
    assert!(removed.cascaded_scopes.is_empty());
    assert_eq!(reg.snapshot(), vec![command(&b, "y", "h")]);
}

#[test]
fn snapshots_do_not_depend_on_order() {
    let s = path(&["app"]);
    let set = [
        command(&s, "b", "h"),
        guard(&s, "g", false),
        command(&s, "a", "h"),
    ];
    let mut one = registry();
    one.apply(&s, &set).unwrap();
    let mut other = registry();
    for c in set.iter().rev() {
        other.apply(&s, &[c.clone()]).unwrap();
    }
    assert_eq!(one.snapshot(), other.snapshot());
    assert_eq!(
        CompositionStore::new(&one, &digest_of).current().digest,
        CompositionStore::new(&other, &digest_of).current().digest
    );
}

#[test]
fn disposing_undoes_creating() {
    let mut tree = ScopeTree::new_root();
    let mut reg = registry();
    let before = tree.scopes();
    let made = tree
        .create_child(&path(&[]), "app", OwnerLease::Generation(1))
        .unwrap();
    assert_eq!(made, path(&["app"]));
    assert_eq!(tree.scopes().len(), before.len() + 1);
    tree.dispose_scope(&made, &mut reg, false).unwrap();
    assert_eq!(tree.scopes(), before);
}

// ---------- epochs ----------

#[test]
fn an_empty_plan_is_a_plain_publish() {
    let s = path(&["app"]);
    let mut one = registry();
    let mut store_one = CompositionStore::new(&one, &digest_of);
    let mut other = registry();
    let mut store_other = CompositionStore::new(&other, &digest_of);
    let set = vec![command(&s, "a", "h")];
    store_one.stage_publish(&set, &mut one, &digest_of).unwrap();
    let staged = store_other.stage(set);
    store_other
        .publish_planned(
            &staged,
            &OverridePlan { removed: vec![] },
            &mut other,
            &digest_of,
        )
        .unwrap();
    assert_eq!(store_one.current(), store_other.current());
    assert_eq!(store_one.current().epoch, 1);
    // The staged epoch has passed: nothing changes.
    let e = store_other
        .publish_planned(
            &staged,
            &OverridePlan { removed: vec![] },
            &mut other,
            &digest_of,
        )
        .unwrap_err();
    assert_eq!(
        e,
        ScopeError::StaleEpoch {
            staged: 0,
            current: 1
        }
    );
    assert_eq!(store_one.current(), store_other.current());
}

// ---------- layers ----------

fn source(module: &str, origin: ModuleOrigin, rank: u8, own: Vec<Contribution>) -> LayerSource {
    LayerSource {
        layer: layer(module, origin, rank, rank as u64 + 1),
        published: own,
    }
}

#[test]
fn a_higher_layer_takes_over_the_keys_it_stages() {
    let root = path(&[]);
    let low = source(
        "user",
        ModuleOrigin::UserConfig,
        1,
        vec![
            command(&root, "go", "low"),
            command(&root, "other", "low"),
            keymap(&root, "k", "low"),
            guard(&root, "g", true),
            settings(&root, approval_settings(Some(true), None)),
        ],
    );
    let staged = vec![
        command(&root, "go", "high"),
        keymap(&root, "k", "high"),
        guard(&root, "g", true),
    ];
    let services = ServiceRegistry::new();
    let taken = |origin: ModuleOrigin, rank: u8| {
        override_plan(&services, &vec![low.clone()], origin, rank, &staged).removed
    };
    assert_eq!(
        taken(ModuleOrigin::UserConfig, 2),
        vec![command(&root, "go", "low")]
    );
    // Equal rank takes nothing, and an untrusted module takes nothing from a
    // trusted layer whatever its rank.
    assert!(taken(ModuleOrigin::UserConfig, 1).is_empty());
    assert!(taken(ModuleOrigin::WorkspaceConfig, 9).is_empty());
}

#[test]
fn activation_publishes_over_lower_layers() {
    let root = path(&[]);
    let mut reg = registry();
    let mut store = CompositionStore::new(&reg, &digest_of);
    let low = manifest("low", ModuleOrigin::Builtin);
    let first = activate_config(
        &mut reg,
        &mut store,
        0,
        &vec![],
        0,
        &low,
        1,
        &digest("package-low-1"),
        vec![
            command(&root, "go", "low"),
            settings(&root, provider_settings(Some("m"), Some("openai"))),
        ],
        &digest_of,
    )
    .unwrap();
    assert_eq!(first.epoch, 1);
    assert_eq!(first.event.kind, "composition_changed");
    assert_eq!(
        first.event.refs,
        vec![digest("package-low-1"), store.current().digest.clone()]
    );
    let Payload::Document(doc) = &first.event.payload else {
        panic!("a document")
    };
    assert_eq!(
        render(doc),
        r#"{"epoch":1,"delta":{"added":[{"module_id":"low","generation":1,"package":"package-low-1"}],"removed":[]},"scope":"/","initiator":"config"}"#
    );
    assert_eq!(digest_of(first.bytes.clone()), first.digest);

    let active = vec![LayerSource {
        layer: layer("low", ModuleOrigin::Builtin, 0, 1),
        published: vec![command(&root, "go", "low")],
    }];
    let high = manifest("high", ModuleOrigin::UserConfig);
    // Without the layer below it the command is held by another.
    let refused = activate_config(
        &mut reg,
        &mut store,
        1,
        &vec![],
        1,
        &high,
        2,
        &digest("p"),
        vec![command(&root, "go", "high")],
        &digest_of,
    )
    .unwrap_err();
    assert!(matches!(
        refused,
        PublishError::Refused(ScopeError::Conflict { .. })
    ));
    assert!(matches!(publish_failure(refused), SessionError::Scope(_)));
    assert_eq!(store.current().epoch, 1);

    let second = activate_config(
        &mut reg,
        &mut store,
        1,
        &active,
        1,
        &high,
        2,
        &digest("p"),
        vec![
            command(&root, "go", "high"),
            settings(&root, provider_settings(Some("n"), None)),
        ],
        &digest_of,
    )
    .unwrap();
    assert_eq!(second.epoch, 2);
    assert!(reg.snapshot().contains(&command(&root, "go", "high")));
    assert!(!reg.snapshot().contains(&command(&root, "go", "low")));
    let p = second.settings.provider.clone().unwrap();
    assert_eq!(p.model.as_deref(), Some("n"));
    assert_eq!(p.protocol.as_deref(), Some("openai"));
    assert_eq!(snapshot_settings(&reg), second.settings);
    // A set staged for an epoch that has passed is refused.
    assert!(matches!(
        activate_config(
            &mut reg,
            &mut store,
            1,
            &active,
            1,
            &high,
            3,
            &digest("p"),
            vec![command(&root, "fresh", "h")],
            &digest_of,
        ),
        Err(PublishError::Refused(ScopeError::StaleEpoch {
            staged: 1,
            current: 2
        }))
    ));
}

#[test]
fn a_refused_generation_leaves_nothing_in_the_graph() {
    let root = path(&[]);
    let mut reg = registry();
    let mut store = CompositionStore::new(&reg, &digest_of);
    reg.apply(&root, &[command(&root, "go", "held")]).unwrap();
    // The module published a service while it was activated.
    reg.services_mut()
        .publish(key(&[], "svc"), provider("m", 7, "svc", 1))
        .unwrap();
    reg.services_mut()
        .publish(key(&[], "kept"), provider("k", 3, "kept", 1))
        .unwrap();
    assert_eq!(generation_entries(reg.services(), 7).len(), 1);
    let e = activate_config(
        &mut reg,
        &mut store,
        0,
        &vec![],
        1,
        &manifest("m", ModuleOrigin::UserConfig),
        7,
        &digest("p"),
        vec![command(&root, "go", "mine")],
        &digest_of,
    )
    .unwrap_err();
    assert!(matches!(e, PublishError::Refused(_)));
    assert!(reg.services().holder(&key(&[], "svc")).is_none());
    assert!(reg.services().holder(&key(&[], "kept")).is_some());
    assert_eq!(store.current().epoch, 0);
}

#[test]
fn a_publication_that_others_need_cannot_be_pulled_back() {
    let mut reg = registry();
    let mut store = CompositionStore::new(&reg, &digest_of);
    reg.services_mut()
        .publish(key(&[], "svc"), provider("m", 7, "svc", 1))
        .unwrap();
    reg.services_mut()
        .publish_with_deps(
            key(&[], "user"),
            provider("n", 3, "user", 1),
            &[dep(key(&[], "svc"), 1)],
        )
        .unwrap();
    let e = activate_config(
        &mut reg,
        &mut store,
        0,
        &vec![],
        1,
        &manifest("m", ModuleOrigin::UserConfig),
        7,
        &digest("p"),
        vec![],
        &digest_of,
    )
    .unwrap_err();
    assert!(matches!(
        e,
        PublishError::Withdrawal(ServiceError::DependentsExist { .. })
    ));
    assert!(matches!(publish_failure(e), SessionError::Service(_)));
}

#[test]
fn a_replacement_swaps_what_its_generations_contributed() {
    let root = path(&[]);
    let mut reg = registry();
    let mut store = CompositionStore::new(&reg, &digest_of);
    let m = manifest("m", ModuleOrigin::UserConfig);
    activate_config(
        &mut reg,
        &mut store,
        0,
        &vec![],
        1,
        &m,
        1,
        &digest("old"),
        vec![command(&root, "go", "one")],
        &digest_of,
    )
    .unwrap();
    let p = replace_module(
        &mut reg,
        &mut store,
        1,
        &id("m"),
        &LiveModule {
            module_id: id("m"),
            generation: 1,
            package: digest("old"),
        },
        &vec![],
        &vec![command(&root, "go", "one")],
        &m,
        2,
        &digest("new"),
        vec![command(&root, "go", "two")],
        &digest_of,
    )
    .unwrap();
    assert_eq!(p.epoch, 2);
    assert_eq!(
        p.event.refs,
        vec![digest("old"), digest("new"), store.current().digest.clone()]
    );
    assert_eq!(reg.snapshot(), vec![command(&root, "go", "two")]);
}

#[test]
fn settling_overlays_forgets_the_layers_that_left() {
    let root = path(&[]);
    let mut reg = registry();
    reg.apply(
        &root,
        &[settings(&root, provider_settings(Some("user"), Some("openai")))],
    )
    .unwrap();
    let left = source(
        "builtin",
        ModuleOrigin::Builtin,
        0,
        vec![settings(&root, provider_settings(None, Some("openai")))],
    );
    let agent = source(
        "agent",
        ModuleOrigin::Agent,
        4,
        vec![settings(&root, approval_settings(Some(true), Some(true)))],
    );
    let s = settle_overlays(&mut reg, &vec![left, agent]);
    assert_eq!(s.provider.as_ref().unwrap().model, None);
    assert_eq!(
        s.provider.as_ref().unwrap().protocol.as_deref(),
        Some("openai")
    );
    // An untrusted layer gets no approval settings through.
    assert_eq!(s.approval.unwrap().auto_approve, None);
    assert_eq!(s.approval.unwrap().yolo, None);
}

#[test]
fn layers_stay_ranked_and_replacement_keeps_the_order() {
    let mut stack = vec![];
    for (module, rank) in [("project", 2), ("builtin", 0), ("user", 1)] {
        stack = stack_layer(&stack, layer(module, ModuleOrigin::UserConfig, rank, 1));
    }
    let names = |s: &Vec<ConfigLayer>| -> Vec<String> {
        s.iter().map(|l| l.module_id.text.clone()).collect()
    };
    assert_eq!(names(&stack), vec!["builtin", "user", "project"]);
    assert_eq!(config_digest(&stack), Some(digest("package-project-1")));
    assert_eq!(
        config_manifest(&stack).unwrap().module_id,
        id("project")
    );
    let again = restack_layer(
        &stack,
        &id("user"),
        9,
        &digest("fresh"),
        &manifest("user", ModuleOrigin::UserConfig),
    );
    assert_eq!(names(&again), names(&stack));
    assert_eq!(
        config_layer_digests(&again),
        vec![
            digest("package-builtin-1"),
            digest("fresh"),
            digest("package-project-1")
        ]
    );
}

// ---------- encodings ----------

#[test]
fn contributions_encode_with_their_tags() {
    let s = path(&["app"]);
    assert_eq!(
        render(&command(&s, "a", "h").encode()),
        r#"{"scope":["app"],"kind":{"Command":{"name":"a","handler":"h"}}}"#
    );
    let hook = Contribution {
        scope: s.clone(),
        kind: ContributionKind::Hook(HookContribution {
            name: "h\n\"q\"".to_string(),
            hook: HookKind::OnToolIntent,
        }),
    };
    assert!(render(&hook.encode()).contains(r#""h\n\"q\"""#));
    let service = Contribution {
        scope: s,
        kind: ContributionKind::Service(ServiceContribution {
            key: key(&["app"], "svc"),
            provider: provider("m", 1, "svc", 1),
            deps: vec![],
        }),
    };
    assert_eq!(service.kind.kind_tag(), "service");
    assert_eq!(
        service.kind.override_identity(),
        Some("service\u{1f}svc".to_string())
    );
    assert_eq!(guard(&path(&[]), "g", true).kind.override_identity(), None);
}

#[test]
fn key_contexts_match_and_rank() {
    let ctx = KeyContext {
        modal: true,
        overlay: false,
    };
    assert!(ContextPredicate::Always.matches(ctx));
    assert!(ContextPredicate::Modal.matches(ctx));
    assert!(!ContextPredicate::Overlay.matches(ctx));
    assert_eq!(ContextPredicate::Always.rank(), 0);
    assert_eq!(ContextPredicate::Overlay.rank(), 1);
    assert_eq!(ContextPredicate::Modal.rank(), 2);
    assert_eq!(KeymapOrigin::Builtin.rank(), 0);
    assert_eq!(KeymapOrigin::Plugin.rank(), 1);
    assert_eq!(KeymapOrigin::UserConfig.rank(), 2);
}

#[test]
fn tools_need_a_replay_declaration() {
    let s = path(&["app"]);
    let reg = registry();
    let tool = Contribution {
        scope: s,
        kind: ContributionKind::Tool(ToolContribution {
            name: "t".to_string(),
            manifest: text_json("no"),
            handler: "h".to_string(),
        }),
    };
    assert!(matches!(
        reg.validate(&[tool]),
        Err(ScopeError::InvalidContribution { .. })
    ));
}

fn logged(seq: u64, e: &Event) -> LogRecord {
    match &e.payload {
        Payload::Document(d) => LogRecord {
            seq,
            frame: seq,
            id: format!("{}:{seq}", e.kind),
            kind: e.kind.clone(),
            payload: d.clone(),
            resolved: d.clone(),
            snapshot: None,
        },
        other => panic!("not a document: {other:?}"),
    }
}

#[test]
fn the_log_replays_the_stack_in_its_order() {
    let mut stack = vec![];
    let mut log = vec![];
    let mut names = vec!["fresh".to_string()];
    for (module, rank) in [("builtin", 0), ("user", 1), ("project", 2)] {
        let l = layer(module, ModuleOrigin::UserConfig, rank, 1);
        let e = activation_event(1, &l.manifest, 1, &l.package, &digest("composition"));
        log.push(logged(log.len() as u64 + 1, &e));
        names.push(l.package.text.clone());
        stack = stack_layer(&stack, l);
    }
    let codec = Codec {
        digests: names
            .iter()
            .map(|t| Reading {
                text: t.clone(),
                value: t.clone(),
            })
            .collect(),
        ids: vec![],
    };
    assert_eq!(
        config_choice_at(&log, &codec, 3),
        Some(config_layer_digests(&stack))
    );
    for module in ["builtin", "user", "project"] {
        let old = stack.iter().find(|l| l.module_id == id(module)).unwrap();
        let e = replacement_event(
            2,
            &id(module),
            &LiveModule {
                module_id: id(module),
                generation: 1,
                package: old.package.clone(),
            },
            &vec![],
            9,
            &digest("fresh"),
            &vec![],
            &digest("composition"),
        );
        let again = restack_layer(
            &stack,
            &id(module),
            9,
            &digest("fresh"),
            &manifest(module, ModuleOrigin::UserConfig),
        );
        let mut later = log.clone();
        later.push(logged(4, &e));
        assert_eq!(
            config_choice_at(&later, &codec, 4),
            Some(config_layer_digests(&again))
        );
        assert_eq!(
            config_choice_at(&later, &codec, 3),
            Some(config_layer_digests(&stack))
        );
    }
}

#[test]
fn a_module_has_one_layer() {
    let mut stack = vec![];
    for rank in [2, 0, 1] {
        stack = stack_layer(&stack, layer("user", ModuleOrigin::UserConfig, rank, 1));
    }
    assert_eq!(stack.len(), 1);
    assert_eq!(stack[0].rank, 1);
}
