//! A turn from its hooks to its outcome: what the session decides and records.
use kanbei::approvals::{check_binding, check_standing, ApprovalQueue, Resolution};
use kanbei::branch::PinnedRoots;
use kanbei::cognition::{CognitionLoop, Lane, LoopPhase, StepCommand, StepContext, StepResult};
use kanbei::contribution::HookKind;
use kanbei::elements::{
    effect_dispatch, find_live, reinitialized_event, reset_module_state, safe_mode_event,
    LayerPhase, LayerRun,
};
use kanbei::event::{document_event, promoted_object, resolve_payload, Event, Payload};
use kanbei::hooks::{
    fault_event, Decision, HookBinding, HookCandidate, HookDecision, HookError, HookEvaluation,
    HookSet, HookStep, LiveModule, Respawns, ANNOTATION_KEY_MAX, ANNOTATION_VALUE_MAX,
};
use kanbei::ids::{Digest, Id128};
use kanbei::json::{list, no_fields, object, read, record, render, text_json, Field, Json};
use kanbei::model::{
    check_provider, flatten, stream_failure, CacheOutcome, CachePlan, Continuity, ModelOutcome,
    ModelState, ProjectionState, ProviderConfig, Response, StreamError,
};
use kanbei::package::{ModuleOrigin, PackageManifest, TrustClass};
use kanbei::commit::CommitReceipt;
use kanbei::runs::{
    accept_wake, cancel_active_run, child_trigger, fail_active_run, fail_child, quiesce_active_run,
    resume_event, run_outcome_events, run_start_event, settle_loops, FailureKind, TerminalOutcome,
    Budgets, WakeDecision,
};
use kanbei::services::{ScopePath, ServiceKey};
use kanbei::session_error::SessionError;
use kanbei::telemetry::{
    telemetry_checkpoint, telemetry_close_run, telemetry_commit, telemetry_continue_from,
    telemetry_gc, telemetry_open_run, telemetry_storage, AttrValue, SpanKind,
};
use kanbei::tool_call::{
    boundary_event, commit_tool_outcome, needs_admission, Admission, BoundaryFact, BoundaryKind,
    Permission, Phase, ToolCall,
};
use kanbei::tools::{
    consequential_tool, outcome_failed, outcome_finished, outcome_interrupted, route_of,
    Annotation, Classification, Principal, Route, ToolIntent, ToolOutcome,
};
use kanbei::wiring::{apply_settings, wire, SessionSettings, SettingsSource, Wiring};

fn id(t: &str) -> Id128 {
    Id128 {
        text: t.to_string(),
    }
}

fn digest(t: &str) -> Digest {
    Digest {
        text: t.to_string(),
    }
}

fn doc(e: &Event) -> String {
    match &e.payload {
        Payload::Document(d) => render(d),
        other => panic!("not a document: {other:?}"),
    }
}

fn binding(name: &str, hook: HookKind) -> HookBinding {
    HookBinding {
        module_id: id(name),
        package_digest: digest("pkg"),
        generation: 1,
        name: name.to_string(),
        hook,
        entry: format!("kb_{name}"),
        degraded: false,
        faults: 0,
        last_fault_seq: None,
    }
}

fn principal() -> Principal {
    Principal {
        session: id("session"),
        generation: 0,
        run: Some(0),
    }
}

fn intent(tool: &str) -> ToolIntent {
    ToolIntent {
        call_id: "call-1".to_string(),
        run_id: "run-1".to_string(),
        principal: principal(),
        tool: tool.to_string(),
        args: record(no_fields()),
        approval: None,
        origin_snapshot: Some(digest("origin")),
        intent_event: Some(5),
        annotations: vec![],
    }
}

fn permission(t: &str) -> Permission {
    Permission {
        digest: digest(t),
        policy_version: 1,
        grants_version: 2,
    }
}

fn continue_only() -> HookEvaluation {
    HookEvaluation::default_only()
}

fn call(tool: &str) -> ToolCall {
    ToolCall::start(
        true,
        "call-1".to_string(),
        "run-1".to_string(),
        principal(),
        tool.to_string(),
        record(no_fields()),
        Some(digest("origin")),
    )
    .unwrap()
}

// ---------- hooks ----------

#[test]
fn a_denial_ends_the_evaluation_and_names_its_denier() {
    let mut set = HookSet::from_bindings(
        vec![],
        vec![
            binding("a", HookKind::OnToolIntent),
            binding("b", HookKind::OnToolIntent),
            binding("c", HookKind::OnToolIntent),
        ],
    );
    let HookStep::Call(run) = set.evaluate(HookKind::OnToolIntent) else {
        panic!("the first binding is asked")
    };
    let HookStep::Call(run) = set.answer(
        run,
        Ok(r#"{"decision":"continue","annotations":[{"key":"k","value":1}]}"#.to_string()),
    ) else {
        panic!("the second binding is asked")
    };
    let HookStep::Done(e) = set.answer(run, Ok(r#"{"decision":"deny","reason":"no"}"#.to_string()))
    else {
        panic!("a denial ends it")
    };
    assert_eq!(
        e.decision,
        Decision::Deny {
            reason: "no".to_string()
        }
    );
    assert_eq!(e.denier.unwrap().name, "b");
    assert_eq!(e.annotations.len(), 1);
    assert!(e.faults.is_empty());
}

#[test]
fn an_intent_fault_fails_closed_and_degrades_one_binding() {
    let mut set = HookSet::from_bindings(
        vec![],
        vec![
            binding("a", HookKind::OnToolIntent),
            binding("b", HookKind::OnToolIntent),
        ],
    );
    let HookStep::Call(run) = set.evaluate(HookKind::OnToolIntent) else {
        panic!("asked")
    };
    let HookStep::Done(e) = set.answer(run, Err(HookError::Timeout)) else {
        panic!("fails closed")
    };
    assert!(matches!(e.decision, Decision::Deny { .. }));
    assert_eq!(e.faults.len(), 1);
    assert!(e.faults[0].transitioned);
    assert_eq!(
        doc(&fault_event(&e.faults[0]).unwrap()),
        r#"{"module_id":"a","package_digest":"pkg","generation":1,"hook":"on_tool_intent","entry":"kb_a","fault_class":"timeout","count":1}"#
    );
    assert!(set.bindings(HookKind::OnToolIntent)[0].degraded);
    assert!(!set.bindings(HookKind::OnToolIntent)[1].degraded);
    // A degraded binding still denies, and is not asked again.
    let HookStep::Done(e) = set.evaluate(HookKind::OnToolIntent) else {
        panic!("denied by default")
    };
    assert_eq!(e.denier.unwrap().name, "a");
    assert!(e.faults.is_empty());
    set.mark_fault_seq(HookKind::OnToolIntent, 0, 9);
    assert_eq!(
        set.bindings(HookKind::OnToolIntent)[0].last_fault_seq,
        Some(9)
    );
}

#[test]
fn a_turn_fault_does_not_deny() {
    let mut set = HookSet::from_bindings(vec![binding("a", HookKind::OnTurnStart)], vec![]);
    for (generation, error, raw) in [
        (3, HookError::Trap, None),
        (4, HookError::Gone, None),
        (5, HookError::Invalid, Some("nonsense")),
    ] {
        set.rebuild(
            &vec![HookCandidate {
                name: "a".to_string(),
                entry: "kb_a".to_string(),
                generation: Some(generation),
            }],
            &vec![],
            &vec![LiveModule {
                module_id: id("m"),
                generation,
                package: digest("pkg"),
            }],
        );
        let answer = match raw {
            Some(t) => Ok(t.to_string()),
            None => Err(error),
        };
        let HookStep::Call(run) = set.evaluate(HookKind::OnTurnStart) else {
            panic!("asked")
        };
        let HookStep::Done(e) = set.answer(run, answer) else {
            panic!("done")
        };
        assert_eq!(e.decision, Decision::Continue);
        assert_eq!(e.faults[0].error, error);
        assert!(set.bindings(HookKind::OnTurnStart)[0].degraded);
    }
}

#[test]
fn hooks_are_bound_to_live_generations_only() {
    let mut set = HookSet::new();
    let candidate = |name: &str, generation: Option<u64>| HookCandidate {
        name: name.to_string(),
        entry: format!("kb_{name}"),
        generation,
    };
    set.rebuild(
        &vec![candidate("live", Some(3)), candidate("gone", Some(4))],
        &vec![candidate("nobody", None)],
        &vec![LiveModule {
            module_id: id("m"),
            generation: 3,
            package: digest("pkg"),
        }],
    );
    assert_eq!(set.bindings(HookKind::OnTurnStart).len(), 1);
    assert_eq!(set.bindings(HookKind::OnTurnStart)[0].module_id, id("m"));
    assert!(set.bindings(HookKind::OnToolIntent).is_empty());
}

#[test]
fn annotations_are_capped() {
    let raw = format!(
        r#"{{"decision":"continue","annotations":[{{"key":"{}","value":"{}"}}]}}"#,
        "k".repeat(ANNOTATION_KEY_MAX + 9),
        "v".repeat(ANNOTATION_VALUE_MAX + 9)
    );
    let d = HookDecision::parse(&raw).unwrap();
    assert_eq!(d.annotations[0].key.len(), ANNOTATION_KEY_MAX);
    match &d.annotations[0].value {
        Json::Text(t) => assert_eq!(t.len(), ANNOTATION_VALUE_MAX),
        other => panic!("a text, got {other:?}"),
    }
}

#[test]
fn modules_are_respawned_once_per_composition() {
    let mut set = HookSet::from_bindings(vec![binding("a", HookKind::OnTurnStart)], vec![]);
    let mut respawns = Respawns::new();
    let HookStep::Call(run) = set.evaluate(HookKind::OnTurnStart) else {
        panic!("asked")
    };
    let HookStep::Done(e) = set.answer(run, Err(HookError::Trap)) else {
        panic!("done")
    };
    assert_eq!(respawns.take_due(&e.faults), vec![id("a")]);
    assert!(respawns.take_due(&e.faults).is_empty());
    respawns.composition_changed();
    assert_eq!(respawns.take_due(&e.faults), vec![id("a")]);
}

// ---------- tool calls ----------

#[test]
fn a_plain_call_runs_once_it_is_granted() {
    let mut c = call("fs.read");
    assert_eq!(
        render(&c.hook_context()),
        r#"{"hook":"on_tool_intent","tool":"fs.read","args":{}}"#
    );
    c.hooks_evaluated(&continue_only(), &digest("d"));
    assert!(matches!(
        c.phase(),
        Phase::Commit {
            refused: false,
            denial: None
        }
    ));
    assert_eq!(c.intent_event().kind, "tool_intent");
    c.intent_committed(7, false, &None);
    assert_eq!(c.intent().intent_event, Some(7));
    assert_eq!(c.phase(), &Phase::Recheck);
    c.dispatch_checked(&ApprovalQueue::new(0), Ok(false), false, &None);
    assert_eq!(c.phase(), &Phase::Run(Route::Native));
    c.native_ran(Ok(text_json("data")), &Some(digest("now")));
    match c.phase() {
        Phase::Done(o) => {
            assert_eq!(o.result, text_json("data"));
            assert_eq!(o.classification, Classification::Normal);
            assert_eq!(o.origin_snapshot, Some(digest("origin")));
            assert_eq!(o.commit_snapshot, Some(digest("now")));
        }
        other => panic!("done, got {other:?}"),
    }
}

#[test]
fn an_unknown_tool_is_refused() {
    let e = ToolCall::start(
        false,
        "c".to_string(),
        "r".to_string(),
        principal(),
        "nope".to_string(),
        Json::Null,
        None,
    )
    .err()
    .unwrap();
    assert!(matches!(e, SessionError::InvalidInput(_)));
    assert!(e.text().contains("nope"));
}

#[test]
fn a_denied_call_stops_before_the_broker() {
    let mut c = call("fs.read");
    let e = HookEvaluation {
        decision: Decision::Deny {
            reason: "secret reason".to_string(),
        },
        annotations: vec![],
        denier: Some(binding("guard", HookKind::OnToolIntent)),
        faults: vec![],
    };
    c.hooks_evaluated(&e, &digest("decision"));
    c.intent_committed(7, true, &None);
    let outcome = match c.phase() {
        Phase::Deny(o) => o.clone(),
        other => panic!("denied, got {other:?}"),
    };
    assert!(outcome.denied());
    assert_eq!(
        outcome.classification,
        Classification::Denied("denied by hook".to_string())
    );
    let denier = outcome.hook_denied.clone().unwrap();
    assert_eq!(denier.module_id, "guard");
    assert_eq!(denier.decision_digest, "decision");
    c.denial_committed();
    assert_eq!(c.phase(), &Phase::Done(outcome));
}

#[test]
fn a_gated_call_parks_and_runs_only_when_approved() {
    let mut queue = ApprovalQueue::new(4);
    let mut c = call("process.exec");
    c.hooks_evaluated(&continue_only(), &digest("d"));
    c.intent_committed(7, queue.enabled(), &None);
    assert_eq!(c.phase(), &Phase::Gate);
    c.gate_checked(&mut queue, Ok(true), permission("p1"), &None);
    match c.phase() {
        Phase::Done(o) => {
            assert_eq!(
                o.classification,
                Classification::Interrupted("awaiting approval: p1".to_string())
            );
            assert!(o.awaiting_approval());
            assert_eq!((&o.result, &o.error), (&Json::Null, &None));
        }
        other => panic!("parked, got {other:?}"),
    }
    assert_eq!(queue.pending_approvals(), vec![digest("p1")]);
    let parked = match queue.resolve(&digest("p1"), true, &None) {
        Resolution::Verify(p) => p,
        _ => panic!("to verify"),
    };
    assert!(check_binding(&parked, &digest("p1"), &None).is_none());
    assert!(matches!(
        check_binding(&parked, &digest("p2"), &None)
            .unwrap()
            .classification,
        Classification::Interrupted(_)
    ));
    assert!(matches!(
        check_standing(&parked, Err("revoked".to_string()), &None)
            .unwrap_err()
            .classification,
        Classification::Interrupted(t) if t == "approval recheck: revoked"
    ));
    let approved = check_standing(&parked, Ok(()), &None).unwrap();
    assert_eq!(approved.approval, Some(digest("p1")));
    let mut again = ToolCall::resume(approved);
    assert_eq!(again.phase(), &Phase::Flush);
    again.intent_flushed();
    // Released in the meantime: it does not run.
    let mut stale = ToolCall::resume(again.intent().clone());
    stale.intent_flushed();
    stale.dispatch_checked(&ApprovalQueue::new(4), Ok(true), true, &None);
    match stale.phase() {
        Phase::Done(o) => assert_eq!(
            o.classification,
            Classification::Interrupted("approval revoked or stale at dispatch".to_string())
        ),
        other => panic!("interrupted, got {other:?}"),
    }
    again.dispatch_checked(&queue, Ok(true), true, &None);
    assert!(matches!(again.phase(), Phase::Run(_)));
    // Resolution is one-shot.
    queue.release(&digest("p1"));
    assert!(matches!(
        queue.resolve(&digest("p1"), true, &None),
        Resolution::NotParked
    ));
}

#[test]
fn the_gate_and_the_recheck_can_refuse() {
    let mut queue = ApprovalQueue::new(4);
    let mut c = call("fs.read");
    c.hooks_evaluated(&continue_only(), &digest("d"));
    c.intent_committed(7, true, &None);
    c.gate_checked(&mut queue, Err("no grant".to_string()), permission("p"), &None);
    match c.phase() {
        Phase::Done(o) => assert_eq!(
            o.classification,
            Classification::Interrupted("approval denied: no grant".to_string())
        ),
        other => panic!("interrupted, got {other:?}"),
    }
    let mut c = ToolCall::resume(intent("fs.read"));
    c.dispatch_checked(&queue, Ok(true), false, &None);
    match c.phase() {
        Phase::Done(o) => assert_eq!(
            o.classification,
            Classification::Interrupted("approval required but missing at dispatch".to_string())
        ),
        other => panic!("interrupted, got {other:?}"),
    }
    let mut c = ToolCall::resume(intent("fs.read"));
    c.dispatch_checked(&queue, Err("gone".to_string()), false, &None);
    match c.phase() {
        Phase::Done(o) => assert_eq!(
            o.classification,
            Classification::Interrupted("dispatch recheck: gone".to_string())
        ),
        other => panic!("interrupted, got {other:?}"),
    }
}

#[test]
fn the_oldest_approval_is_evicted() {
    let mut queue = ApprovalQueue::new(2);
    for p in ["p1", "p2", "p3"] {
        let mut c = call("fs.read");
        c.hooks_evaluated(&continue_only(), &digest("d"));
        c.intent_committed(7, true, &None);
        c.gate_checked(&mut queue, Ok(true), permission(p), &None);
    }
    assert_eq!(queue.pending_approvals(), vec![digest("p2"), digest("p3")]);
    assert!(!queue.contains(&digest("p1")));
    assert_eq!(queue.newest_parked().unwrap().digest, digest("p3"));
    match queue.resolve(&digest("p2"), false, &None) {
        Resolution::Settled(o) => assert_eq!(
            o.classification,
            Classification::Interrupted("approval denied by user".to_string())
        ),
        _ => panic!("settled"),
    }
    assert!(!ApprovalQueue::new(0).enabled());
}

#[test]
fn routes_and_consequential_tools() {
    assert_eq!(route_of("memory.query"), Route::MemoryQuery);
    assert_eq!(route_of("memory.propose"), Route::MemoryPropose);
    assert_eq!(route_of("memory.review"), Route::MemoryReview);
    assert_eq!(route_of("memory.promote"), Route::MemoryPromote);
    assert_eq!(route_of("child.spawn"), Route::ChildSpawn);
    assert_eq!(route_of("fs.read"), Route::Native);
    assert!(consequential_tool("process.exec"));
    assert!(!consequential_tool("fs.read"));
}

#[test]
fn a_session_tool_hands_its_outcome_on() {
    let mut c = ToolCall::resume(intent("memory.query"));
    c.dispatch_checked(&ApprovalQueue::new(0), Ok(false), false, &None);
    assert_eq!(c.phase(), &Phase::Run(Route::MemoryQuery));
    let o = outcome_finished(c.intent(), &None, list(vec![]));
    c.session_tool_ran(o.clone());
    assert_eq!(c.phase(), &Phase::Done(o));
    let mut c = ToolCall::resume(intent("fs.read"));
    c.dispatch_checked(&ApprovalQueue::new(0), Ok(false), false, &None);
    c.native_ran(Err("boom".to_string()), &None);
    match c.phase() {
        Phase::Done(o) => assert_eq!(o.error.as_deref(), Some("boom")),
        other => panic!("done, got {other:?}"),
    }
}

// ---------- outcomes ----------

#[test]
fn exactly_what_the_policy_stored_is_committed() {
    let o = outcome_finished(&intent("fs.read"), &None, text_json("secret"));
    assert!(needs_admission(&o));
    let committed = |admission: Result<Admission, String>| -> ToolOutcome {
        let events = commit_tool_outcome(&o, Some(admission), None);
        assert_eq!(events.len(), 1);
        assert_eq!(events[0].kind, "tool_outcome");
        match &events[0].payload {
            Payload::Outcome(o) => o.clone(),
            other => panic!("an outcome, got {other:?}"),
        }
    };
    let stored = committed(Ok(Admission::Stored {
        text: r#"{"b":[1,-2.5,true,null],"a":"x\n"}"#.to_string(),
        exact: true,
    }));
    assert_eq!(render(&stored.result), r#"{"a":"x\n","b":[1,-2.5,true,null]}"#);
    assert_eq!(stored.retained, Some(true));
    let lossy = committed(Ok(Admission::Stored {
        text: "[1]".to_string(),
        exact: false,
    }));
    assert_eq!(lossy.result, text_json("[1]"));
    let dropped = committed(Ok(Admission::Dropped));
    assert_eq!(dropped.result, Json::Null);
    assert_eq!(dropped.retained, Some(false));
    assert_eq!(committed(Ok(Admission::Unchanged)), o);
    let failed = committed(Err("policy".to_string()));
    assert_eq!(failed.result, Json::Null);
    assert_eq!(
        failed.classification,
        Classification::Interrupted("retention gate failed closed: policy".to_string())
    );
    assert!(!needs_admission(&outcome_failed(
        &intent("fs.read"),
        &None,
        "e".to_string()
    )));
    assert!(!outcome_interrupted(&intent("fs.read"), &None, "awaiting".to_string())
        .awaiting_approval());
    assert!(!needs_admission(&outcome_interrupted(
        &intent("fs.read"),
        &None,
        "e".to_string()
    )));
}

#[test]
fn a_boundary_is_recorded_before_its_outcome() {
    let o = outcome_failed(&intent("fs.read"), &None, "e".to_string());
    let fact = BoundaryFact {
        reason: text_json("why"),
        replay_relevant: true,
        kind: BoundaryKind::NonResumable,
    };
    let events = commit_tool_outcome(&o, None, Some(fact.clone()));
    assert_eq!(events[0], boundary_event(&fact));
    assert_eq!(
        doc(&events[0]),
        r#"{"reason":"why","replay_relevant":true,"kind":"non_resumable"}"#
    );
    assert_eq!(events[1].kind, "tool_outcome");
    assert!(doc(&boundary_event(&BoundaryFact {
        kind: BoundaryKind::Rejected,
        ..fact
    }))
    .contains("rejected"));
}

// ---------- model calls ----------

fn config() -> ProviderConfig {
    ProviderConfig {
        provider: "p1".to_string(),
        model: "m1".to_string(),
        temperature: Json::Number("0.5".to_string()),
        max_tokens: Some(64),
    }
}

fn projection(prefix: &str, roots: &[&str]) -> ProjectionState {
    ProjectionState {
        projection_digest: digest("projection"),
        cache_plan: CachePlan::StablePrefix {
            digest: digest(prefix),
        },
        memory_roots: roots.iter().map(|r| digest(r)).collect(),
        lowered: vec![],
    }
}

fn response(artifacts: Option<&str>, discontinuity: Option<&str>) -> Response {
    Response {
        content: text_json("hello"),
        tool_calls: list(vec![]),
        finish_reason: text_json("stop"),
        usage: Json::Null,
        input_tokens: 3,
        output_tokens: 4,
        opaque_artifacts: artifacts.map(|s| s.to_string()),
        discontinuity: discontinuity.map(|s| s.to_string()),
    }
}

fn reply(
    state: &mut ModelState,
    config: ProviderConfig,
    p: &Option<ProjectionState>,
    root: &str,
    r: Response,
) -> ModelOutcome {
    let (event, open) = state.open_call(
        &Some(config),
        p,
        vec![1, 2],
        digest("rendered"),
        &Some(digest("origin")),
    );
    assert_eq!(event.kind, "model_call");
    match &event.payload {
        Payload::Call(c) => assert_eq!(c.finish_reason, "stop"),
        other => panic!("a call, got {other:?}"),
    }
    let done = state.close_call(&open, p, &None, &Some(digest(root)), &None, 9, r);
    assert_eq!(done.tokens, 7);
    assert_eq!(
        render(&done.result),
        r#"{"content":"hello","tool_calls":[],"finish_reason":"stop","usage":null}"#
    );
    match done.event.payload {
        Payload::Reply(o) => o,
        other => panic!("a reply, got {other:?}"),
    }
}

#[test]
fn a_cache_hit_needs_the_same_prefix_and_roots() {
    let mut state = ModelState::new();
    let p = Some(projection("prefix", &["r1"]));
    let first = reply(&mut state, config(), &p, "r1", response(None, None));
    assert_eq!(first.cache_outcome, CacheOutcome::Miss);
    let second = reply(&mut state, config(), &p, "r1", response(None, None));
    assert_eq!(second.cache_outcome, CacheOutcome::Hit);
    let third = reply(&mut state, config(), &p, "r2", response(None, None));
    assert_eq!(
        third.cache_outcome,
        CacheOutcome::Invalidated {
            reason: "memory root changed".to_string()
        }
    );
    let other = Some(projection("other", &["r1"]));
    let fourth = reply(&mut state, config(), &other, "r1", response(None, None));
    assert_eq!(fourth.cache_outcome, CacheOutcome::Miss);
}

#[test]
fn continuity_and_artifacts_follow_the_provider() {
    let mut state = ModelState::new();
    let first = reply(&mut state, config(), &None, "r", response(Some("art"), None));
    assert_eq!(
        first.continuity,
        Continuity::Broken {
            from_provider: "none".to_string(),
            at_event: 9,
            reason: None
        }
    );
    let (_, open) = state.open_call(&Some(config()), &None, vec![], digest("x"), &None);
    assert_eq!(open.opaque_artifacts.as_deref(), Some("art"));
    let second = reply(&mut state, config(), &None, "r", response(None, None));
    assert_eq!(second.continuity, Continuity::Continuous);
    let mut other = config();
    other.provider = "p2".to_string();
    let (_, open) = state.open_call(&Some(other.clone()), &None, vec![], digest("x"), &None);
    assert_eq!(open.opaque_artifacts, None);
    let third = reply(&mut state, other, &None, "r", response(None, None));
    assert_eq!(
        third.continuity,
        Continuity::Broken {
            from_provider: "p1".to_string(),
            at_event: 9,
            reason: None
        }
    );
    let fourth = reply(&mut state, config(), &None, "r", response(None, Some("reset")));
    assert!(matches!(
        fourth.continuity,
        Continuity::Broken { reason: Some(t), .. } if t == "reset"
    ));
}

#[test]
fn providers_and_streams_fail_as_they_should() {
    assert!(check_provider(true).is_ok());
    assert_eq!(
        check_provider(false).unwrap_err().text(),
        "invalid input: no provider configured"
    );
    assert_eq!(
        stream_failure(StreamError::Cancelled),
        SessionError::Cancelled
    );
    assert_eq!(
        stream_failure(StreamError::Other("502".to_string())).text(),
        "provider error: 502"
    );
    assert_eq!(
        flatten(&Some(digest("a")), &Some(digest("b"))),
        vec![digest("a"), digest("b")]
    );
    assert!(flatten(&None, &None).is_empty());
}

// ---------- the loop ----------

fn context() -> StepContext {
    StepContext {
        rendered: "ctx".to_string(),
        rendered_hash: digest("h"),
        selected_events: vec![1, 2],
        budget: Budgets {
            deadline_secs: None,
            tokens: Some(7),
            tools: None,
            children: None,
        },
        projection_digest: None,
        memory_roots: vec![],
    }
}

fn stepping() -> CognitionLoop {
    let mut l = CognitionLoop::start(id("run"), id("session"));
    l.hooks_evaluated(&continue_only(), &digest("d"));
    l.rendered(context());
    l.boundary_checked(false, Ok(()));
    l
}

#[test]
fn a_denied_turn_ends_blocked() {
    let mut l = CognitionLoop::start(id("run"), id("session"));
    assert_eq!(
        render(&l.hook_context()),
        r#"{"hook":"on_turn_start","run":"run"}"#
    );
    l.hooks_evaluated(
        &HookEvaluation {
            decision: Decision::Deny {
                reason: "x".to_string(),
            },
            annotations: vec![],
            denier: Some(binding("g", HookKind::OnTurnStart)),
            faults: vec![],
        },
        &digest("dd"),
    );
    match l.phase() {
        LoopPhase::Deny(e) => {
            assert_eq!(e.kind, "turn_denied");
            assert_eq!(
                doc(e),
                r#"{"run":"run","hook":"on_turn_start","module_id":"g","package_digest":"pkg","decision_digest":"dd"}"#
            );
        }
        other => panic!("denied, got {other:?}"),
    }
    l.denial_committed();
    match l.phase() {
        LoopPhase::End { outcome, .. } => assert_eq!(outcome, &TerminalOutcome::Blocked),
        other => panic!("the end, got {other:?}"),
    }
    l.run_ended();
    assert!(matches!(
        l.phase(),
        LoopPhase::Done(TerminalOutcome::Blocked)
    ));
}

#[test]
fn annotations_are_committed_before_the_turn() {
    let mut l = CognitionLoop::start(id("run"), id("session"));
    let mut e = continue_only();
    e.annotations.push(Annotation {
        key: "k".to_string(),
        value: Json::Unsigned(1),
    });
    l.hooks_evaluated(&e, &digest("d"));
    match l.phase() {
        LoopPhase::Annotate(events) => assert_eq!(
            doc(&events[0]),
            r#"{"run":"run","hook":"on_turn_start","key":"k","value":1}"#
        ),
        other => panic!("annotations, got {other:?}"),
    }
    l.annotations_committed();
    assert!(matches!(l.phase(), LoopPhase::Render));
}

#[test]
fn a_model_step_meets_a_boundary_before_the_next() {
    let mut l = stepping();
    assert!(matches!(l.phase(), LoopPhase::Step));
    l.commanded(Ok(StepCommand::ModelCall), &None);
    match l.phase() {
        LoopPhase::Model {
            messages, selected, ..
        } => {
            assert_eq!(messages.len(), 1);
            assert_eq!(messages[0].content, "ctx");
            assert_eq!(selected, &vec![1, 2]);
        }
        other => panic!("the model, got {other:?}"),
    }
    l.model_answered(Ok(text_json("hi")));
    assert!(matches!(l.phase(), LoopPhase::Boundary));
    assert!(matches!(l.last(), Some(StepResult::Model(v)) if v == &text_json("hi")));
    l.boundary_checked(false, Err("budget exhausted".to_string()));
    match l.phase() {
        LoopPhase::End {
            outcome, reason, ..
        } => {
            assert_eq!(outcome, &TerminalOutcome::Blocked);
            assert_eq!(reason.as_deref(), Some("budget exhausted"));
        }
        other => panic!("the end, got {other:?}"),
    }
}

#[test]
fn a_cancel_ends_the_run_wherever_it_is_seen() {
    let cancelled = |l: &CognitionLoop| match l.phase() {
        LoopPhase::End {
            outcome, cancelled, ..
        } => {
            assert_eq!(
                outcome,
                &TerminalOutcome::Failed(FailureKind::UserCancelled)
            );
            *cancelled
        }
        other => panic!("the end, got {other:?}"),
    };
    let mut l = CognitionLoop::start(id("run"), id("session"));
    l.hooks_evaluated(&continue_only(), &digest("d"));
    l.rendered(context());
    l.boundary_checked(true, Err("also exhausted".to_string()));
    assert!(cancelled(&l));
    let mut l = stepping();
    l.commanded(Ok(StepCommand::ModelCall), &None);
    l.model_answered(Err(SessionError::Cancelled));
    assert!(cancelled(&l));
    let mut l = stepping();
    l.commanded(Ok(StepCommand::ModelCall), &None);
    l.model_answered(Err(SessionError::Provider("down".to_string())));
    assert!(matches!(
        l.phase(),
        LoopPhase::Failed(SessionError::Provider(_))
    ));
}

#[test]
fn only_final_outcomes_are_committed() {
    let mut l = stepping();
    l.commanded(
        Ok(StepCommand::ToolIntent {
            tool: "fs.read".to_string(),
            arguments: Json::Null,
        }),
        &None,
    );
    assert!(matches!(
        l.phase(),
        LoopPhase::Tool {
            lane: Lane::Tool,
            ..
        }
    ));
    assert_eq!(l.principal(), principal());
    let mut parked = outcome_finished(&intent("fs.read"), &None, Json::Null);
    parked.classification = Classification::Interrupted("awaiting approval: p".to_string());
    l.tool_answered(parked.clone());
    assert!(matches!(l.phase(), LoopPhase::Parked { .. }));
    l.parked_resolved(None);
    assert!(
        matches!(l.last(), Some(StepResult::Outcome { outcome, .. }) if outcome.awaiting_approval())
    );

    let mut l = stepping();
    l.commanded(
        Ok(StepCommand::MemoryQuery {
            query: "q".to_string(),
        }),
        &None,
    );
    match l.phase() {
        LoopPhase::Tool {
            lane,
            tool,
            arguments,
        } => {
            assert_eq!(lane, &Lane::Memory);
            assert_eq!(tool, "memory.query");
            assert_eq!(render(arguments), r#"{"query":"q"}"#);
        }
        other => panic!("a tool, got {other:?}"),
    }
    let o = outcome_finished(&intent("memory.query"), &None, list(vec![]));
    l.tool_answered(o.clone());
    assert!(matches!(l.phase(), LoopPhase::Commit { .. }));
    l.outcome_committed();
    assert!(matches!(l.phase(), LoopPhase::Boundary));

    let mut l = stepping();
    l.commanded(
        Ok(StepCommand::ChildSpawn {
            spec: record(no_fields()),
        }),
        &None,
    );
    let mut denied = o;
    denied.classification = Classification::Denied("denied by hook".to_string());
    l.tool_answered(denied);
    assert!(matches!(l.phase(), LoopPhase::Boundary));
}

#[test]
fn a_run_finishes_schedules_or_fails() {
    let mut l = stepping();
    l.commanded(
        Ok(StepCommand::ScheduleWake {
            kind: "timer".to_string(),
        }),
        &None,
    );
    assert!(matches!(l.phase(), LoopPhase::Observe { kind } if kind == "timer"));
    l.observed();
    assert!(matches!(l.last(), Some(StepResult::Scheduled)));
    l.boundary_checked(false, Ok(()));
    l.commanded(Ok(StepCommand::Finish(TerminalOutcome::CompletedGoal)), &None);
    l.run_ended();
    assert!(matches!(
        l.phase(),
        LoopPhase::Done(TerminalOutcome::CompletedGoal)
    ));
    let mut l = stepping();
    l.commanded(Err("trap".to_string()), &None);
    match l.phase() {
        LoopPhase::Failed(e) => assert_eq!(e.text(), "invalid input: cognition step: trap"),
        other => panic!("failed, got {other:?}"),
    }
}

// ---------- runs ----------

#[test]
fn wakes_make_runs_unless_denied() {
    let (e, run) = accept_wake(WakeDecision::Accepted {
        run_id: id("r"),
        kind: "user".to_string(),
        trigger_kind: "message".to_string(),
        trigger_digests: vec![digest("t1"), digest("t2")],
        record: text_json("rec"),
    });
    assert_eq!(e.kind, "wake_acceptance");
    assert_eq!(run.unwrap().trigger.referent, Some(digest("t1")));
    let (e, run) = accept_wake(WakeDecision::Denied {
        record: text_json("rec"),
    });
    assert_eq!(e.kind, "wake_denied");
    assert!(run.is_none());
    assert_eq!(run_start_event(Json::Null).kind, "run_start");
}

#[test]
fn only_a_completed_goal_resolves_loops() {
    let mut loops = vec!["a".to_string()];
    settle_loops(&mut loops, &TerminalOutcome::Blocked);
    assert_eq!(loops.len(), 1);
    settle_loops(&mut loops, &TerminalOutcome::Other("CompletedGoal".to_string()));
    assert_eq!(loops.len(), 1);
    settle_loops(&mut loops, &TerminalOutcome::CompletedGoal);
    assert!(loops.is_empty());
}

#[test]
fn a_trip_is_committed_with_the_outcome() {
    let events = run_outcome_events(text_json("out"), Some(text_json("trip")));
    assert_eq!(events[0].kind, "run_outcome");
    assert_eq!(events[1].kind, "breaker_tripped");
    assert_eq!(run_outcome_events(text_json("out"), None).len(), 1);
    assert_eq!(resume_event().kind, "cognition_resumed");
}

#[test]
fn a_child_is_driven_under_the_digest_of_its_id() {
    let shown = |bytes: Vec<u8>| digest(&String::from_utf8(bytes).unwrap());
    let t = child_trigger(&id("child"), &shown);
    assert_eq!(t.kind, "ChildDone");
    assert_eq!(t.referent, Some(digest("child")));
}

#[test]
fn an_active_run_can_be_ended() {
    let active = Some(id("r"));
    assert_eq!(cancel_active_run(&None), None);
    let c = cancel_active_run(&active).unwrap();
    assert_eq!(c.outcome.text(), "Failed(UserCancelled)");
    let q = quiesce_active_run(&active).unwrap();
    assert_eq!(q.outcome.text(), "Failed(Quiesced)");
    let f = fail_active_run(
        &active,
        FailureKind::Other("Provider".to_string()),
        "down".to_string(),
    )
    .unwrap();
    assert_eq!(f.outcome.text(), "Failed(Provider)");
    assert_eq!(f.reason.as_deref(), Some("down"));
    assert_eq!(f.run_id, id("r"));
    assert_eq!(fail_child(&id("c"), "boom").outcome.text(), "Failed(Internal)");
}

// ---------- telemetry ----------

#[test]
fn run_spans_open_and_close() {
    let open = telemetry_open_run(&id("s"), &id("r"), 10);
    assert_eq!(open.start, 10_000_000_000);
    assert_eq!(telemetry_open_run(&id("s"), &id("r"), u64::MAX).start, u64::MAX);
    assert_eq!(open.kind, SpanKind::Server);
    assert_eq!(open.end, None);
    let closed = telemetry_close_run(open.clone(), &TerminalOutcome::Blocked, 5, 2, 1, 30);
    assert_eq!(closed.end, Some(30));
    let failed = telemetry_close_run(
        open.clone(),
        &TerminalOutcome::Failed(FailureKind::Internal),
        5,
        2,
        1,
        30,
    );
    assert!(failed.status.unwrap().error);
    let receipt = CommitReceipt {
        first_seq: 3,
        last_seq: 4,
        count: 2,
        frame_len: 100,
        objects: vec![digest("o")],
        pre_snapshot: None,
        post_snapshot: None,
    };
    let inner = telemetry_commit(&receipt, &id("s"), id("c"), &Some(open.clone()), 20);
    assert_eq!(inner.parent, Some(open.id.clone()));
    assert_eq!(inner.trace, open.trace);
    let alone = telemetry_commit(&receipt, &id("s"), id("c"), &None, 20);
    assert_eq!(alone.parent, None);
    assert!(!telemetry_checkpoint(&id("s"), id("c"), 3, &Some(digest("m")), 1)
        .attrs
        .is_empty());
    assert!(!telemetry_continue_from(&id("s"), id("c"), 4, &id("b"), 1)
        .attrs
        .is_empty());
}

#[test]
fn gauges_report_counts() {
    let gauges = telemetry_gc(&id("s"), 3, 4);
    assert_eq!(gauges.len(), 2);
    assert_eq!(gauges[0].value, 3);
    assert_eq!(gauges[1].value, 4);
    let storage = telemetry_storage(&id("s"), 1, 2, 3, 4, Some(5));
    assert!(storage.iter().all(|g| g.session == id("s")));
    assert_eq!(
        telemetry_storage(&id("s"), 1, 2, 3, 4, None).len() + 1,
        storage.len()
    );
    assert_ne!(AttrValue::Int(1), AttrValue::Str("1".to_string()));
}

// ---------- layers and state ----------

#[test]
fn a_failing_builtin_layer_disables_modules() {
    let mut run = LayerRun::start(vec![ModuleOrigin::Builtin, ModuleOrigin::UserConfig]);
    run.layer_answered(Err("no wasm".to_string()));
    match run.phase() {
        LayerPhase::Record { reason, disable } => {
            assert_eq!(reason, "no wasm");
            assert!(*disable);
        }
        other => panic!("a record, got {other:?}"),
    }
    assert_eq!(doc(&safe_mode_event("no wasm")), r#"{"reason":"no wasm"}"#);
    run.safe_mode_recorded();
    assert_eq!(run.phase(), &LayerPhase::Done);
    assert!(run.safe_mode_committed());
}

#[test]
fn without_a_builtin_layer_the_fallback_is_tried() {
    for (active, disable) in [(true, false), (false, true)] {
        let mut run = LayerRun::start(vec![ModuleOrigin::UserConfig]);
        run.layer_answered(Err("bad".to_string()));
        run.layers_dropped();
        assert!(matches!(run.phase(), LayerPhase::Fallback { .. }));
        run.fallback_answered(active);
        assert!(
            matches!(run.phase(), LayerPhase::Record { disable: d, .. } if *d == disable)
        );
    }
}

fn package(key: Option<&str>) -> PackageManifest {
    PackageManifest {
        schema: 1,
        module_id: id("m"),
        origin: ModuleOrigin::UserConfig,
        trust_class: TrustClass::User,
        scope: ScopePath(vec![]),
        deps: vec![],
        capabilities: vec![],
        source: String::new(),
        state_schema: None,
        state_key: key.map(|s| s.to_string()),
    }
}

#[test]
fn module_state_is_reset_by_its_key() {
    assert_eq!(
        reset_module_state(&Some(package(Some("k"))), &id("m"), true).unwrap(),
        "k"
    );
    assert!(matches!(
        reset_module_state(&Some(package(Some("k"))), &id("m"), false),
        Err(SessionError::ModulesDisabled)
    ));
    assert!(reset_module_state(&None, &id("m"), true).is_err());
    assert!(reset_module_state(&Some(package(None)), &id("m"), true).is_err());
    let e = reinitialized_event(&id("m"), "k", &Some(digest("old")));
    assert!(doc(&e).contains(r#""previous_head":"old""#));
}

#[test]
fn effects_need_a_current_generation() {
    let key = ServiceKey {
        scope: ScopePath(vec!["a".to_string()]),
        name: "svc".to_string(),
    };
    assert!(matches!(
        effect_dispatch(false, true, 1, &key, "{}", ""),
        Err(SessionError::ModulesDisabled)
    ));
    assert_eq!(
        effect_dispatch(true, false, 1, &key, "{}", "")
            .unwrap_err()
            .text(),
        "generation 1 is stale"
    );
    assert!(effect_dispatch(true, true, 1, &key, "{}", "").is_ok());
    let live = vec![LiveModule {
        module_id: id("m"),
        generation: 2,
        package: digest("p"),
    }];
    assert_eq!(find_live(&live, &id("m")).unwrap().generation, 2);
    assert_eq!(find_live(&live, &id("x")), None);
}

// ---------- wiring ----------

struct Fixed(Option<String>);

impl SettingsSource<String, u8, bool> for Fixed {
    fn resolve(
        &self,
        _settings: &kanbei::contribution::SettingsContribution,
    ) -> SessionSettings<String, u8, bool> {
        SessionSettings {
            provider_engine: self.0.clone(),
            provider: None,
            broker: Some(3),
            approval_resolver: None,
            session_id: None,
        }
    }
}

fn wiring() -> Wiring<String, u8, bool> {
    Wiring {
        provider_engine: Some("boot".to_string()),
        provider: Some(config()),
        broker: Some(1),
        approval_resolver: Some(true),
        session_id: id("s"),
    }
}

#[test]
fn a_source_determines_the_wiring() {
    let none = kanbei::contribution::SettingsContribution {
        provider: None,
        approval: None,
    };
    let kept = apply_settings(wiring(), &None::<Fixed>, &none);
    assert_eq!(kept.provider_engine.as_deref(), Some("boot"));
    let w = apply_settings(wiring(), &Some(Fixed(Some("e".to_string()))), &none);
    assert_eq!(w.provider_engine.as_deref(), Some("e"));
    assert_eq!(w.provider, None);
    assert_eq!(w.broker, Some(3));
    assert_eq!(w.approval_resolver, None);
    assert_eq!(w.session_id, id("s"));
    let again = apply_settings(w, &Some(Fixed(None)), &none);
    assert_eq!(again.provider_engine, None);
    let renamed = wire(
        again,
        SessionSettings {
            provider_engine: None,
            provider: None,
            broker: None,
            approval_resolver: None,
            session_id: Some(id("t")),
        },
    );
    assert_eq!(renamed.session_id, id("t"));
}

// ---------- documents ----------

#[test]
fn documents_read_and_render() {
    for t in [
        "null",
        "true",
        "0",
        "18446744073709551615",
        "-1",
        "\"a\\\"b\\\\c\\u0001\"",
        "[]",
        "[1,[2,{}]]",
        r#"{"a":1,"b":{"c":[null]}}"#,
    ] {
        let v = read(t).unwrap();
        assert_eq!(render(&v), t);
    }
    assert_eq!(render(&read(r#"{"b":1,"a":2,"b":3}"#).unwrap()), r#"{"a":2,"b":3}"#);
    for bad in ["", "{", "[1,]", "nul", "{\"a\"}", "1 2"] {
        assert_eq!(read(bad), None, "{bad}");
    }
    let v = object(vec![
        Field {
            name: "z".to_string(),
            value: Json::Unsigned(1),
        },
        Field {
            name: "a".to_string(),
            value: text_json("t"),
        },
    ]);
    assert_eq!(render(&v), r#"{"a":"t","z":1}"#);
    assert_eq!(v.get_text("a").map(|s| s.as_str()), Some("t"));
    assert_eq!(v.get_unsigned("z"), Some(1));
    assert_eq!(v.get("missing"), None);
    assert!(v.is_object());
    assert!(!v.is_bool());
}

#[test]
fn promoted_payloads_resolve_to_their_documents() {
    let marker = read(r#"{"$object":"d1"}"#).unwrap();
    assert_eq!(promoted_object(&marker).as_deref(), Some("d1"));
    assert_eq!(
        resolve_payload(&marker, Some(text_json("full"))),
        text_json("full")
    );
    assert_eq!(resolve_payload(&marker, None), marker);
    let plain = read(r#"{"a":1}"#).unwrap();
    assert_eq!(resolve_payload(&plain, Some(text_json("full"))), plain);
    let e = document_event("k", plain);
    assert_eq!(doc(&e), r#"{"a":1}"#);
    assert!(e.refs.is_empty());
    assert_eq!(
        PinnedRoots {
            lifetime: digest("l"),
            project: None
        }
        .project,
        None
    );
}
