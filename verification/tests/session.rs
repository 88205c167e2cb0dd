use kanbei::branch::BranchRecord;
use kanbei::commit::CompactedRange;
use kanbei::builtin_config::builtin_config_manifest;
use kanbei::contribution::{
    ApprovalSettings, Contribution, ContributionKind, HookKind, KeyReference, ProviderSettings,
    SettingsContribution,
};
use kanbei::elements::{drop_layer, stack_layer, ConfigLayer, LayerPhase, LayerRun};
use kanbei::event::{Codec, LogRecord};
use kanbei::gc::gc_live_roots;
use kanbei::hooks::{
    Decision, HookBinding, HookDecision, HookError, HookEvaluation, HookSet, DENY_REASON_MAX,
};
use kanbei::ids::{Digest, Id128};
use kanbei::json::{no_fields, object, record, render, text_json, Field, Json};
use kanbei::layout::{
    migrate_legacy, package_source, plan_resolution, MigrationStep, PackageStore, Resolution,
};
use kanbei::memory::{empty_fold, render_memory_source, Claim, StoredClaim};
use kanbei::package::{ModuleOrigin, PackageManifest, TrustClass};
use kanbei::recovery::{decode_record, recover_session_id};
use kanbei::services::ScopePath;
use kanbei::session_error::SessionError;
use kanbei::settings_gate::{gate_settings_contributions, settings_supersede_allowed};

fn fnv(bytes: &[u8], seed: u64) -> u64 {
    let mut hash: u64 = 0xcbf29ce484222325 ^ seed;
    for b in bytes {
        hash ^= *b as u64;
        hash = hash.wrapping_mul(0x100000001b3);
    }
    hash
}

fn digest_of(bytes: Vec<u8>) -> Digest {
    Digest {
        text: format!("{:016x}", fnv(&bytes, 0)),
    }
}

fn digest16(bytes: Vec<u8>) -> [u8; 16] {
    let mut out = [0u8; 16];
    out[..8].copy_from_slice(&fnv(&bytes, 0).to_be_bytes());
    out[8..].copy_from_slice(&fnv(&bytes, 1).to_be_bytes());
    out
}

fn id_of(bytes: [u8; 16]) -> Id128 {
    Id128 {
        text: format!("{:032x}", u128::from_be_bytes(bytes)),
    }
}

fn id(n: u64) -> Id128 {
    Id128 {
        text: format!("id-{n:020}"),
    }
}

fn strings(all: &[&str]) -> Vec<String> {
    all.iter().map(|s| s.to_string()).collect()
}

// ---------- hooks ----------

fn binding(name: &str, hook: HookKind) -> HookBinding {
    HookBinding {
        module_id: id(1),
        package_digest: digest_of(name.as_bytes().to_vec()),
        generation: 1,
        name: name.to_string(),
        hook,
        entry: format!("kb_{}", hook.as_str()),
        degraded: false,
        faults: 0,
        last_fault_seq: None,
    }
}

#[test]
fn parses_continue() {
    let d = HookDecision::parse(r#"{"decision":"continue"}"#).unwrap();
    assert_eq!(d.decision, Decision::Continue);
    assert!(d.annotations.is_empty());
}

#[test]
fn parses_deny_and_caps_the_reason() {
    let long = "x".repeat(DENY_REASON_MAX + 50);
    let raw = render(&object(vec![
        Field {
            name: "decision".to_string(),
            value: text_json("deny"),
        },
        Field {
            name: "reason".to_string(),
            value: text_json(&long),
        },
    ]));
    let d = HookDecision::parse(&raw).unwrap();
    match d.decision {
        Decision::Deny { reason } => assert_eq!(reason.chars().count(), DENY_REASON_MAX),
        other => panic!("expected deny, got {other:?}"),
    }
    // A deny without a reason gets the default string.
    let d = HookDecision::parse(r#"{"decision":"deny"}"#).unwrap();
    assert_eq!(
        d.decision,
        Decision::Deny {
            reason: "denied by hook".into()
        }
    );
}

#[test]
fn parses_annotations() {
    let raw = r#"{"decision":"continue","annotations":[{"key":"risk","value":"low"},{"key":"n","value":3}]}"#;
    let d = HookDecision::parse(raw).unwrap();
    assert_eq!(d.annotations.len(), 2);
    assert_eq!(d.annotations[0].key, "risk");
    assert_eq!(d.annotations[0].value, Json::Text("low".to_string()));
    assert_eq!(d.annotations[1].value, Json::Unsigned(3));
}

#[test]
fn malformed_decisions_are_invalid() {
    for raw in [
        "not json",
        "[]",
        "{}",
        r#"{"decision":"maybe"}"#,
        r#"{"decision":1}"#,
        r#"{"decision":"continue","annotations":"nope"}"#,
        r#"{"decision":"continue","annotations":[{"value":1}]}"#,
    ] {
        assert_eq!(HookDecision::parse(raw), Err(HookError::Invalid), "raw={raw}");
    }
}

#[test]
fn decision_digests_distinguish_outcomes() {
    let cont = Decision::Continue.digest(&digest_of);
    let deny = Decision::Deny { reason: "x".into() }.digest(&digest_of);
    assert_ne!(cont, deny);
    assert_eq!(cont, Decision::Continue.digest(&digest_of));
}

#[test]
fn bindings_keep_order() {
    let set = HookSet::from_bindings(
        vec![
            binding("a", HookKind::OnTurnStart),
            binding("b", HookKind::OnTurnStart),
        ],
        vec![binding("c", HookKind::OnToolIntent)],
    );
    let names: Vec<_> = set
        .bindings(HookKind::OnTurnStart)
        .iter()
        .map(|b| b.name.clone())
        .collect();
    assert_eq!(names, vec!["a", "b"]);
    assert_eq!(set.bindings(HookKind::OnToolIntent)[0].name, "c");
    assert!(!set.is_empty());
    assert!(HookSet::new().is_empty());
}

#[test]
fn default_is_fail_closed_for_tool_intent() {
    assert!(matches!(
        HookEvaluation::default_for(HookKind::OnToolIntent),
        Decision::Deny { .. }
    ));
    assert_eq!(
        HookEvaluation::default_for(HookKind::OnTurnStart),
        Decision::Continue
    );
}

// ---------- settings ----------

const BUILTIN_RANK: u8 = 0;
const USER_RANK: u8 = 1;
const WORKSPACE_RANK: u8 = 2;
const AGENT_RANK: u8 = 4;

fn settings_contribution(settings: SettingsContribution) -> Contribution {
    Contribution {
        scope: ScopePath(vec![]),
        kind: ContributionKind::Settings(settings),
    }
}

fn untrusted_sensitive() -> SettingsContribution {
    SettingsContribution {
        provider: Some(ProviderSettings {
            base_url: Some("https://evil.example/v1".into()),
            model: Some("m".into()),
            protocol: Some("anthropic".into()),
            key: Some(KeyReference::Env {
                name: "SECRET".into(),
            }),
            fake: Some(true),
        }),
        approval: Some(ApprovalSettings {
            auto_approve: Some(true),
            yolo: Some(true),
        }),
    }
}

#[test]
fn untrusted_settings_have_every_sensitive_field_stripped() {
    let c = gate_settings_contributions(
        ModuleOrigin::WorkspaceConfig,
        vec![settings_contribution(untrusted_sensitive())],
    );
    let ContributionKind::Settings(s) = &c[0].kind else {
        panic!("settings")
    };
    let p = s.provider.as_ref().unwrap();
    assert_eq!(p.base_url, None);
    assert_eq!(p.key, None);
    assert_eq!(p.fake, None, "untrusted fake stripped");
    assert_eq!(p.model.as_deref(), Some("m"), "non-sensitive model applies");
    assert_eq!(p.protocol.as_deref(), Some("anthropic"));
    let a = s.approval.as_ref().unwrap();
    assert_eq!(a.auto_approve, None);
    assert_eq!(a.yolo, None);
}

#[test]
fn trusted_settings_keep_sensitive_fields() {
    let c = gate_settings_contributions(
        ModuleOrigin::UserConfig,
        vec![settings_contribution(untrusted_sensitive())],
    );
    let ContributionKind::Settings(s) = &c[0].kind else {
        panic!("settings")
    };
    let p = s.provider.as_ref().unwrap();
    assert_eq!(p.base_url.as_deref(), Some("https://evil.example/v1"));
    assert_eq!(p.fake, Some(true));
    assert_eq!(s.approval.as_ref().unwrap().yolo, Some(true));
}

#[test]
fn invalid_base_url_is_dropped_even_for_trusted_origins() {
    let c = gate_settings_contributions(
        ModuleOrigin::Builtin,
        vec![settings_contribution(SettingsContribution {
            provider: Some(ProviderSettings {
                base_url: Some("ftp://nope".into()),
                model: None,
                protocol: None,
                key: None,
                fake: None,
            }),
            approval: None,
        })],
    );
    let ContributionKind::Settings(s) = &c[0].kind else {
        panic!("settings")
    };
    assert_eq!(s.provider.as_ref().unwrap().base_url, None);
}

#[test]
fn untrusted_may_never_supersede_trusted_regardless_of_rank() {
    assert!(!settings_supersede_allowed(
        ModuleOrigin::WorkspaceConfig,
        WORKSPACE_RANK,
        ModuleOrigin::UserConfig,
        USER_RANK,
    ));
    assert!(!settings_supersede_allowed(
        ModuleOrigin::Agent,
        AGENT_RANK,
        ModuleOrigin::Builtin,
        BUILTIN_RANK,
    ));
}

#[test]
fn trusted_may_supersede_untrusted_regardless_of_rank() {
    assert!(settings_supersede_allowed(
        ModuleOrigin::UserConfig,
        USER_RANK,
        ModuleOrigin::WorkspaceConfig,
        WORKSPACE_RANK,
    ));
}

#[test]
fn same_trust_class_uses_rank() {
    // untrusted vs untrusted: strictly higher rank replaces lower.
    assert!(settings_supersede_allowed(
        ModuleOrigin::Agent,
        AGENT_RANK,
        ModuleOrigin::WorkspaceConfig,
        WORKSPACE_RANK,
    ));
    // trusted vs trusted: equal rank never replaces.
    assert!(!settings_supersede_allowed(
        ModuleOrigin::UserConfig,
        USER_RANK,
        ModuleOrigin::UserConfig,
        USER_RANK,
    ));
}

// ---------- recovery ----------

/// Decodes a line as the log's record schema would: `refs` is a list.
fn decoded(line: &str) -> Result<LogRecord, String> {
    let v: serde_json::Value = serde_json::from_str(line).map_err(|e| e.to_string())?;
    if !v["refs"].is_array() {
        return Err("invalid type: string, expected a sequence".to_string());
    }
    Ok(LogRecord {
        seq: v["seq"].as_u64().unwrap(),
        frame: 0,
        id: v["evt"].as_str().unwrap().to_string(),
        kind: v["kind"].as_str().unwrap().to_string(),
        payload: record(no_fields()),
        resolved: record(no_fields()),
        snapshot: None,
    })
}

#[test]
fn malformed_load_bearing_envelope_fails_loud() {
    // Declares a load-bearing kind but the envelope does not decode
    // (`refs` is not the digest array the record schema requires).
    let line = r#"{"env":1,"seq":1,"evt":"e","kind":"breaker_tripped","schema":1,"payload":{},"refs":"nope"}"#;
    let err = decode_record(line, &decoded(line), &strings(&["breaker_tripped"])).unwrap_err();
    assert!(matches!(err, SessionError::CorruptRecord(_)));
}

#[test]
fn malformed_unrelated_envelope_is_skipped() {
    let line = r#"{"env":1,"seq":1,"evt":"e","kind":"tool_outcome","schema":1,"payload":{},"refs":"nope"}"#;
    assert!(decode_record(line, &decoded(line), &strings(&["breaker_tripped"]))
        .unwrap()
        .is_none());
}

#[test]
fn well_formed_other_kind_is_none() {
    let line = r#"{"env":1,"seq":1,"evt":"e","kind":"tool_outcome","schema":1,"payload":{},"refs":[],"snapshot":null}"#;
    assert!(decode_record(line, &decoded(line), &strings(&["breaker_tripped"]))
        .unwrap()
        .is_none());
}

/// The registry's `created_session` is still a recovery marker when the
/// registry is the append-log stream.
#[test]
fn registry_stream_yields_created_session() {
    let session = id(1);
    // The source's log carries no identity marker, so recovery falls through
    // to the registry stream.
    let log = vec![LogRecord {
        seq: 1,
        frame: 0,
        id: "probe:1".to_string(),
        kind: "probe".to_string(),
        payload: record(no_fields()),
        resolved: record(no_fields()),
        snapshot: None,
    }];
    let codec = Codec {
        digests: vec![],
        ids: vec![],
    };
    assert_eq!(
        recover_session_id(
            &log,
            &vec![],
            &vec![],
            &vec![Some(session.clone())],
            &vec![],
            &codec
        ),
        Some(session)
    );
}

// ---------- collection ----------

fn root() -> ScopePath {
    ScopePath(vec![])
}

fn package(
    module_id: Id128,
    origin: ModuleOrigin,
    trust_class: TrustClass,
    source: String,
) -> PackageManifest {
    PackageManifest {
        schema: 1,
        module_id,
        origin,
        trust_class,
        scope: root(),
        deps: vec![],
        capabilities: vec![],
        source,
        state_schema: None,
        state_key: None,
    }
}

fn package_digest(m: &PackageManifest) -> Digest {
    digest_of(format!("{m:?}").into_bytes())
}

fn rank(origin: ModuleOrigin) -> u8 {
    match origin {
        ModuleOrigin::Builtin => BUILTIN_RANK,
        ModuleOrigin::UserConfig => USER_RANK,
        ModuleOrigin::WorkspaceConfig => WORKSPACE_RANK,
        ModuleOrigin::UserInstalled => 3,
        ModuleOrigin::Agent => AGENT_RANK,
    }
}

/// After a safe-mode drop the live roots name only the surviving built-in
/// package: the dropped layer's package is no longer rooted.
#[test]
fn safe_mode_gc_roots_exclude_dropped_layer() {
    let builtin = builtin_config_manifest(1, &digest16, &id_of);
    let builtin_digest = package_digest(&builtin);
    let payload = r#"{"kind":"settings","provider":{"model":"user-model"}}"#;
    let user = package(
        id(1),
        ModuleOrigin::UserConfig,
        TrustClass::User,
        format!(
            "function kb_on_activate(ctx) ctx.contribution_publish('{payload}') end\nfunction kb_hot(x) return x end"
        ),
    );
    let user_digest = package_digest(&user);
    let bad_project = package(
        id(2),
        ModuleOrigin::WorkspaceConfig,
        TrustClass::Workspace,
        "local x = = 1".to_string(),
    );
    let layers = vec![builtin, user, bad_project];

    let mut stack: Vec<ConfigLayer> = Vec::new();
    let mut run = LayerRun::start(layers.iter().map(|l| l.origin).collect());
    let mut recorded = false;
    loop {
        match run.phase() {
            LayerPhase::Activate { index } => {
                let l = &layers[*index];
                if l.source.contains("= =") {
                    run.layer_answered(Err("unexpected symbol near '='".to_string()));
                } else {
                    stack = stack_layer(
                        &stack,
                        ConfigLayer {
                            rank: rank(l.origin),
                            module_id: l.module_id.clone(),
                            generation: 1,
                            package: package_digest(l),
                            manifest: l.clone(),
                        },
                    );
                    run.layer_answered(Ok(()));
                }
            }
            LayerPhase::Drop { modules, .. } => {
                for k in modules {
                    stack = drop_layer(&stack, &layers[*k].module_id);
                }
                run.layers_dropped();
            }
            LayerPhase::Fallback { .. } => panic!("the built-in layer is active"),
            LayerPhase::Record { reason, disable } => {
                assert_eq!(reason, "unexpected symbol near '='");
                assert!(!*disable);
                recorded = true;
                run.safe_mode_recorded();
            }
            LayerPhase::Done => break,
        }
    }
    assert!(recorded);
    assert!(run.safe_mode_committed());

    let records: Vec<BranchRecord> = Vec::new();
    let compacted: Vec<CompactedRange> = Vec::new();
    let roots = gc_live_roots(&None, &stack, &None, &records, &compacted);
    assert!(
        roots.contains(&builtin_digest),
        "the surviving built-in config stays a live root"
    );
    assert!(
        !roots.contains(&user_digest),
        "the dropped user layer's package is not a live root"
    );
}

// ---------- layout ----------

/// A session whose packages live in its legacy store keeps resolving them once
/// a layout is in play: the migration carries the store in place and the
/// fallback reads it, while the shared store stays untouched.
#[test]
fn legacy_package_resolves_under_the_layout() {
    let session = id(1);
    let manifest = package(
        id(2),
        ModuleOrigin::UserConfig,
        TrustClass::User,
        "function kb_hot(x) return x end".into(),
    );
    let digest = package_digest(&manifest);
    let legacy_objects = vec![digest.clone()];

    assert_eq!(plan_resolution(true, &None), Resolution::Migrate);
    let (migrated, steps) =
        migrate_legacy(Some(session.clone()), "/legacy", false, true, false, false).unwrap();
    assert_eq!(migrated, session, "migration preserves identity");

    let global: Vec<Digest> = Vec::new();
    let mut own: Vec<Digest> = Vec::new();
    for step in steps {
        match step {
            MigrationStep::CopyObjects => own = legacy_objects.clone(),
            MigrationStep::CopyLog | MigrationStep::WriteManifest => {}
            other => panic!("the source holds nothing for {other:?}"),
        }
    }
    // No config layer is activated, so the shared store does not hold it...
    assert!(!global.contains(&digest));
    // ...the migration carried the legacy copy, and the fallback resolves it.
    assert!(own.contains(&digest));
    assert_eq!(
        package_source(true, &digest, &global, &own),
        Some(PackageStore::Session)
    );
}

// ---------- memory ----------

/// A memory fragment longer than the 16 KiB cap with a multibyte claim is
/// truncated on a char boundary.
#[test]
fn memory_source_render_truncates_on_a_char_boundary() {
    let claim = Claim {
        claim_id: id(1),
        kind: "decision".into(),
        content: "é".repeat(9000),
        sensitivity: "public".into(),
        rank: 0,
        source_event: 1,
        observed_at: None,
        valid_from: None,
    };
    let mut fold = empty_fold();
    fold.claims.push(StoredClaim {
        digest: digest_of(b"claim".to_vec()),
        claim,
    });

    let source = render_memory_source(&digest_of(b"root".to_vec()), &fold);
    assert!(source.text.ends_with("…[truncated]"));
    assert!(source.text.len() <= 16 * 1024 + "…[truncated]".len());
}
