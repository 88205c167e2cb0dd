//! The log and what is read back from it: branches, commits, recovery, forks,
//! collection, projection and memory.
use kanbei::branch::{
    choose_current, config_choice_at, envelope_at, memory_follow, quiesce, read_checkpoint,
    validate_checkpoint, BranchRecord, BranchState, CheckpointEvent, CheckpointRef,
    ConfigChoiceRecord, MemoryFollow, PinnedRoots, QuiesceRecord, SnapshotFault,
    CHECKPOINT_LABEL_MAX,
};
use kanbei::claims::{
    promoted_claim, promotion_edge, promotion_provenance, proposed_claim, supersede_edge,
    Provenance,
};
use kanbei::commit::{
    build_manifest, recover_compactions, replay_envelopes, schema_versions, CommitState,
    CompactedRange, EncodedEvent, RecentEvent, RECENT_RING,
};
use kanbei::digests::digest_set;
use kanbei::event::{Codec, Event, LogRecord, Payload, Reading};
use kanbei::export::{export_bundle, manifest_set, ClosureObject, ManifestFinding};
use kanbei::gc::{
    collect, gc_run_event, manifests_to_expand, reference_set, ReferringRecord, WriterPins,
};
use kanbei::hooks::LiveModule;
use kanbei::ids::{Digest, Id128};
use kanbei::intents::{classify_pending_intents, scan_classified_intents, scan_pending_intents};
use kanbei::json::{list, no_fields, read, record, render, text_json, Json};
use kanbei::layout::{
    bound_project, first_frame_us, migrate_legacy, new_manifest, plan_resolution, read_manifest,
    resume_or_fresh, scan_sessions, ManifestRead, MigrationStep, Resolution, ResolvedSession,
    SessionManifest, MANIFEST_NAME, SESSION_LOG_NAME, SESSION_MANIFEST_SCHEMA,
};
use kanbei::memory::{
    active_claim, empty_fold, proposed_claim_digest, render_memory_source, Claim, ClaimEdge,
    EdgeKind, MemoryScope, StoredClaim,
};
use kanbei::memory_tools::{
    child_spawn_result, claim_source, memory_query_result, plan_child_spawn, plan_memory_query,
    plan_promotion, plan_review, read_proposal, read_review, review_event, review_recorded,
    Contradiction, FoundClaim, FoundEntity, Promotion, ProposeFlow, ProposePhase, ReviewPlan,
    SearchResult,
    CHILD_DEADLINE_MAX, CHILD_PROMPT_MAX, CHILD_TOKENS_MAX, CHILD_TOOLS_MAX,
};
use kanbei::opening::{
    current_branch, next_seq, opening_events, project_entry, recover, scopes_to_index, starting_state,
    Originated,
    ProjectEntry, SessionConfig,
};
use kanbei::projection::{
    evidence, frozen_seq, project_context, projected, recent_causal, salience_input,
    selected_ranges,
    source_readable, trajectory_events, trigger_fragment, ScoredClaim, SourceRef, EVENT_TEXT_MAX,
    MAX_TOTAL_TOKENS, MAX_VOLATILE_TOKENS, SALIENCE_TOP,
};
use kanbei::model::CachePlan;
use kanbei::recovery::{
    pending_backlinks, recover_bound_project, recover_branches, recover_session_id, recover_trip,
    BranchLine, BranchWire, TripLine,
};
use kanbei::runs::{run_budgets, Budgets, Trigger};
use kanbei::session_error::SessionError;
use kanbei::switch::{
    adopt_event, adopt_follow, adopt_receipt, check_fork, check_source, check_target, fork_config,
    fork_event, fork_floor, fork_objects, fork_pins, fork_receipt, head_snapshot, import_config, memory_seeds,
    object_failure, resolve_fork_object, restored_layers, truncate_log_at, workspace_manifests, Errand, Frame,
    ObjectFault, RestoredLayer, SourceLog, StoreRead, TargetState,
};
use kanbei::tools::{Principal, ToolIntent};
use kanbei::transition::{
    IdempotencyKey, Proposed, Transition, TransitionKind, TransitionPhase, TransitionRequest,
    MAX_ATTEMPTS,
};

fn id(t: &str) -> Id128 {
    Id128 {
        text: t.to_string(),
    }
}

fn digest(t: &str) -> Digest {
    Digest {
        text: t.to_string(),
    }
}

fn digest_of(bytes: Vec<u8>) -> Digest {
    Digest {
        text: format!("d:{}", String::from_utf8(bytes).unwrap()),
    }
}

fn doc(e: &Event) -> String {
    match &e.payload {
        Payload::Document(d) => render(d),
        other => panic!("not a document: {other:?}"),
    }
}

fn codec(digests: &[&str], ids: &[&str]) -> Codec {
    let readings = |all: &[&str]| {
        all.iter()
            .map(|t| Reading {
                text: t.to_string(),
                value: t.to_string(),
            })
            .collect()
    };
    Codec {
        digests: readings(digests),
        ids: readings(ids),
    }
}

fn rec(seq: u64, kind: &str, payload: &str) -> LogRecord {
    let v = read(payload).unwrap();
    LogRecord {
        seq,
        frame: seq,
        id: format!("{kind}:{seq}"),
        kind: kind.to_string(),
        payload: v.clone(),
        resolved: v,
        snapshot: None,
    }
}

fn branch_record(branch: &str, frontier_seq: u64, transition_seq: u64) -> BranchRecord {
    BranchRecord {
        id: id(branch),
        from: None,
        frontier_seq,
        transition_seq,
        follow: MemoryFollow::FollowHead,
        config_choice: ConfigChoiceRecord::default(),
        quiesce: QuiesceRecord::default(),
    }
}

fn state(records: Vec<BranchRecord>) -> BranchState {
    BranchState {
        branch: id("b0"),
        records,
        pinned: None,
    }
}

// ---------- intents ----------

#[test]
fn pending_intents_are_exactly_those_without_an_answer() {
    let log = vec![
        rec(1, "tool_intent", r#"{"call_id":"c1","tool":"fs.read"}"#),
        rec(2, "tool_intent", r#"{"call_id":"c2","tool":"fs.write"}"#),
        rec(3, "tool_outcome", r#"{"call_id":"c1"}"#),
        rec(4, "model_call", "{}"),
        rec(5, "model_outcome", "{}"),
        rec(6, "model_call", "{}"),
        rec(7, "memory_proposal", "{}"),
        rec(8, "tool_intent", r#"{"tool":"nameless"}"#),
    ];
    let pending: Vec<u64> = scan_pending_intents(&log).iter().map(|p| p.seq).collect();
    assert_eq!(pending, vec![2, 6, 7]);
    let events = classify_pending_intents(&log);
    assert!(!events.is_empty());
    assert!(events.iter().all(|e| e.kind == "intent_classified"));
    // What was classified is settled.
    let mut more = log;
    more.push(rec(
        9,
        "intent_classified",
        r#"{"call_id":"c2","classification":"ambiguous"}"#,
    ));
    let pending: Vec<u64> = scan_pending_intents(&more).iter().map(|p| p.seq).collect();
    assert_eq!(pending, vec![6, 7]);
    let q = quiesce(&more, 1, 10);
    assert_eq!(q.cancelled.len(), 2);
    assert_eq!(scan_classified_intents(&more), q.ambiguous);
}

// ---------- branches ----------

#[test]
fn the_path_skips_what_a_transition_abandoned() {
    let s = state(vec![branch_record("b1", 3, 7)]);
    let on: Vec<u64> = (1..=9).filter(|n| s.on_path(*n)).collect();
    assert_eq!(on, vec![1, 2, 3, 8, 9]);
    assert_eq!(s.path_ranges(), vec![(1, 3), (8, u64::MAX)]);
    assert_eq!(state(vec![]).path_ranges(), vec![(1, u64::MAX)]);
}

fn checkpoint_log() -> Vec<LogRecord> {
    vec![
        rec(1, "probe", "{}"),
        rec(
            2,
            "checkpoint_created",
            r#"{"frontier_seq":2,"snapshot":"snap","memory_root":"lr","project_memory_root":null}"#,
        ),
        rec(3, "checkpoint_created", r#"{"frontier_seq":9,"snapshot":"snap"}"#),
        rec(4, "checkpoint_created", r#"{"frontier_seq":4,"snapshot":"?"}"#),
    ]
}

#[test]
fn checkpoints_are_read_or_refused() {
    let log = checkpoint_log();
    let c = codec(&["snap", "lr"], &[]);
    let at = |session: &str, seq: u64| {
        read_checkpoint(
            &CheckpointRef {
                session_id: id(session),
                seq,
            },
            &id("s"),
            5,
            &log,
            &c,
        )
    };
    let found = at("s", 2).unwrap();
    assert_eq!(found.snapshot, digest("snap"));
    assert_eq!(found.memory_root, Some(digest("lr")));
    assert_eq!(found.project_memory_root, None);
    for (session, seq, message) in [
        ("t", 2, "checkpoint belongs to a different session"),
        ("s", 0, "checkpoint seq 0 is not a committed event"),
        ("s", 5, "checkpoint seq 5 is not a committed event"),
        ("s", 1, "event at seq 1 is not a checkpoint"),
        ("s", 3, "event at seq 3 is not a checkpoint"),
        ("s", 4, "checkpoint at seq 4 pins no snapshot"),
    ] {
        assert_eq!(
            at(session, seq).unwrap_err(),
            SessionError::InvalidInput(message.to_string())
        );
    }
    assert_eq!(envelope_at(&log, 1).unwrap().kind, "probe");
    assert_eq!(
        envelope_at(&log, 8).unwrap_err().text(),
        "invalid input: no event at seq 8"
    );
}

#[test]
fn what_a_checkpoint_pins_must_be_known() {
    let c = CheckpointEvent {
        id: "e".to_string(),
        snapshot: digest("snap"),
        memory_root: Some(digest("lr")),
        project_memory_root: Some(digest("pr")),
    };
    assert_eq!(
        validate_checkpoint(&c, None, true, true).unwrap(),
        MemoryFollow::PinnedAt {
            lifetime_root: digest("lr"),
            project_root: Some(digest("pr"))
        }
    );
    assert!(validate_checkpoint(&c, None, false, true)
        .unwrap_err()
        .text()
        .contains("unknown to the lifetime actor"));
    assert!(validate_checkpoint(&c, None, true, false)
        .unwrap_err()
        .text()
        .contains("unknown to the project actor"));
    for (fault, message) in [
        (
            SnapshotFault::Unreadable("io".to_string()),
            "snapshot: checkpoint snapshot snap unreadable: io",
        ),
        (
            SnapshotFault::NotAManifest("x".to_string()),
            "snapshot: checkpoint snapshot snap is not a manifest: x",
        ),
        (
            SnapshotFault::Closure("x".to_string()),
            "snapshot: checkpoint snapshot closure failed: x",
        ),
    ] {
        assert_eq!(
            validate_checkpoint(&c, Some(fault), true, true)
                .unwrap_err()
                .text(),
            message
        );
    }
}

#[test]
fn a_continuation_moves_to_a_new_pinned_branch() {
    let mut s = state(vec![]);
    let e = s
        .create_checkpoint(
            &Some("label".to_string()),
            2,
            &digest("snap"),
            &Some(digest("lr")),
            &None,
            &digest("comp"),
        )
        .unwrap();
    assert_eq!(
        doc(&e),
        r#"{"label":"label","frontier_seq":2,"snapshot":"snap","memory_root":"lr","project_memory_root":null,"composition":"comp","branch":"b0"}"#
    );
    assert!(s
        .create_checkpoint(
            &Some("é".repeat(CHECKPOINT_LABEL_MAX)),
            2,
            &digest("snap"),
            &None,
            &None,
            &digest("comp"),
        )
        .is_ok());
    assert_eq!(
        s.create_checkpoint(
            &Some("x".repeat(CHECKPOINT_LABEL_MAX + 1)),
            2,
            &digest("snap"),
            &None,
            &None,
            &digest("comp"),
        )
        .unwrap_err()
        .text(),
        "invalid input: checkpoint label exceeds 200 characters"
    );
    let c = CheckpointEvent {
        id: "e2".to_string(),
        snapshot: digest("snap"),
        memory_root: Some(digest("lr")),
        project_memory_root: None,
    };
    let choice = choose_current(
        &Some(digest("top")),
        &Some(digest("old")),
        &digest("comp"),
        &vec![digest("low"), digest("top")],
    );
    let (e, record) = s.continue_from(
        &CheckpointRef {
            session_id: id("s"),
            seq: 2,
        },
        &c,
        id("b1"),
        6,
        MemoryFollow::FollowHead,
        &text_json("FollowHead"),
        choice,
        &vec![],
    );
    assert_eq!(e.kind, "branch_transition");
    assert!(doc(&e).contains(r#""config_choice":{"mode":"Current","current":"top","historical":"old","composition":"comp","layers":["low","top"]}"#));
    assert_eq!(record.frontier_seq, 2);
    assert_eq!(record.transition_seq, 6);
    s.continued(record, &c);
    assert_eq!(s.branch, id("b1"));
    assert_eq!(s.pinned.as_ref().unwrap().lifetime, digest("lr"));
    assert!(!s.on_path(6));
    s.follow_changed(&MemoryFollow::FollowHead);
    assert_eq!(s.pinned, None);
}

#[test]
fn a_policy_pins_committed_roots_only() {
    let pinned = MemoryFollow::PinnedAt {
        lifetime_root: digest("lr"),
        project_root: Some(digest("pr")),
    };
    let e = memory_follow(&pinned, &text_json("p"), true, true, 4).unwrap();
    assert_eq!(doc(&e), r#"{"policy":"p","at":4}"#);
    assert!(memory_follow(&pinned, &Json::Null, false, true, 4)
        .unwrap_err()
        .text()
        .contains("pinned lifetime root lr is not a committed root"));
    assert!(memory_follow(&pinned, &Json::Null, true, false, 4)
        .unwrap_err()
        .text()
        .contains("pinned project root pr is not a committed root"));
}

#[test]
fn the_config_at_a_point_is_folded_from_the_log() {
    let c = codec(&["d1", "d2", "d3"], &[]);
    let log = vec![
        rec(
            1,
            "composition_changed",
            r#"{"initiator":"config","delta":{"added":[{"module_id":"a","package":"d1"}],"removed":[]}}"#,
        ),
        rec(
            2,
            "composition_changed",
            r#"{"initiator":"config","delta":{"added":[{"module_id":"b","package":"d2"}],"removed":[]}}"#,
        ),
        rec(
            3,
            "composition_changed",
            r#"{"initiator":"config","delta":{"added":[{"module_id":"a","package":"d3"}],"removed":[]}}"#,
        ),
        rec(
            4,
            "branch_transition",
            r#"{"config_choice":{"layers":["d1"],"current":"d1"}}"#,
        ),
    ];
    assert_eq!(config_choice_at(&log, &c, 0), None);
    assert_eq!(config_choice_at(&log, &c, 1), Some(vec![digest("d1")]));
    assert_eq!(
        config_choice_at(&log, &c, 2),
        Some(vec![digest("d1"), digest("d2")])
    );
    assert_eq!(
        config_choice_at(&log, &c, 3),
        Some(vec![digest("d3"), digest("d2")])
    );
    // A branch point restores its stack, and what comes later changes nothing.
    assert_eq!(config_choice_at(&log, &c, 4), Some(vec![digest("d1")]));
    assert_eq!(config_choice_at(&log, &c, 9), Some(vec![digest("d1")]));
}

#[test]
fn a_replaced_layer_keeps_its_place() {
    let c = codec(&["p", "q", "n"], &[]);
    let change = |seq: u64, added: &str, removed: &str| -> LogRecord {
        rec(
            seq,
            "composition_changed",
            &format!(
                r#"{{"initiator":"config","delta":{{"added":[{added}],"removed":[{removed}]}}}}"#
            ),
        )
    };
    let item = |module: &str, package: &str| -> String {
        format!(r#"{{"module_id":"{module}","package":"{package}"}}"#)
    };
    let mut log = vec![
        change(1, &item("a", "p"), ""),
        change(2, &item("b", "q"), ""),
        change(3, &item("a", "n"), &item("a", "p")),
    ];
    assert_eq!(
        config_choice_at(&log, &c, 3),
        Some(vec![digest("n"), digest("q")])
    );
    // What is removed and not added again is gone.
    log.push(change(4, &item("b", "p"), &item("a", "n")));
    assert_eq!(config_choice_at(&log, &c, 4), Some(vec![digest("p")]));
    // An added item without a readable package replaces nothing.
    log.push(change(5, &item("b", "unknown"), &item("b", "p")));
    assert_eq!(config_choice_at(&log, &c, 5), None);
}

#[test]
fn the_first_record_of_the_last_frame_is_read() {
    let at = |frame: u64, kind: &str| -> LogRecord {
        LogRecord {
            frame,
            ..rec(3, kind, "{}")
        }
    };
    let mut log = vec![at(0, "one"), at(0, "two")];
    assert_eq!(envelope_at(&log, 3).unwrap().kind, "one");
    log.push(at(7, "three"));
    log.push(at(7, "four"));
    assert_eq!(envelope_at(&log, 3).unwrap().kind, "three");
    log.push(rec(4, "five", "{}"));
    assert_eq!(envelope_at(&log, 3).unwrap().kind, "three");
}

// ---------- commits ----------

fn encoded(kind: &str, payload: &str) -> EncodedEvent {
    EncodedEvent {
        kind: kind.to_string(),
        payload: read(payload).unwrap(),
    }
}

#[test]
fn compacted_fragments_are_refused() {
    let range = CompactedRange {
        start: 1,
        end: 4,
        summary_digest: digest("sum"),
        covered_fragments: vec!["f1".to_string()],
    };
    let c = CommitState::new(5, vec![range], None);
    assert!(c.check(&vec![encoded("note", r#"{"x":1}"#)]).is_ok());
    let e = c
        .check(&vec![encoded("note", r#"{"fragment":"f1"}"#)])
        .unwrap_err();
    assert_eq!(e, SessionError::CompactionViolation("f1".to_string()));
    assert_eq!(
        e.text(),
        "compaction violation: event references compacted fragment f1"
    );
    assert_eq!(
        c.check(&vec![]).unwrap_err().text(),
        "invalid input: empty commit"
    );
}

#[test]
fn the_ring_is_bounded_and_seqs_advance() {
    let mut c = CommitState::new(1, vec![], None);
    for _ in 0..RECENT_RING + 5 {
        c.commit(
            &vec![encoded("note", "{}")],
            &codec(&[], &[]),
            None,
            1,
            vec![],
        );
    }
    assert_eq!(c.recent_events.len(), RECENT_RING);
    assert_eq!(c.next_seq, RECENT_RING as u64 + 6);
    assert_eq!(c.recent_events[0].seq, 6);
    assert_eq!(
        c.recent_events[RECENT_RING - 1].seq,
        RECENT_RING as u64 + 5
    );
}

#[test]
fn compactions_survive_recovery() {
    let payload = r#"{"range":[1,4],"summary_digest":"sum","covered_fragments":["f1","f2"]}"#;
    let c = codec(&["sum"], &[]);
    let mut live = CommitState::new(7, vec![], None);
    live.commit(
        &vec![encoded("compaction_selected", payload)],
        &c,
        None,
        1,
        vec![],
    );
    let again = recover_compactions(&vec![rec(7, "compaction_selected", payload)], &c);
    assert_eq!(live.compacted, again);
}

#[test]
fn manifests_pin_the_live_state() {
    let m = build_manifest(
        &Some(digest("head")),
        &vec![LiveModule {
            module_id: id("m"),
            generation: 2,
            package: digest("p"),
        }],
        &digest("comp"),
        &None,
        &Some(digest("lr")),
        &None,
        &digest("tools"),
        &Some(digest("prov")),
        "policy",
        &vec![2, 1, 2],
        3,
    );
    assert_eq!(m.state_head, Some(digest("head")));
    assert_eq!(m.modules.len(), 1);
    assert_eq!(m.modules[0].package, digest("p"));
    assert_eq!(m.composition, digest("comp"));
    assert_eq!(m.schema_versions, schema_versions(&vec![2, 1, 2], 3));
    assert_eq!(schema_versions(&vec![2, 1, 2], 3), vec![1, 2, 3]);
}

#[test]
fn envelopes_replay_from_a_seq() {
    let log = vec![rec(1, "a", "{}"), rec(2, "b", "{}"), rec(3, "c", "{}")];
    let (tail, next) = replay_envelopes(&log, 2);
    assert_eq!(tail.len(), 2);
    assert_eq!(tail[0].kind, "b");
    assert!(next.is_some());
    let (none, _) = replay_envelopes(&log, 9);
    assert!(none.is_empty());
}

// ---------- recovery ----------

fn branch_line(decoded: Result<LogRecord, String>, wire: Result<BranchWire, String>) -> BranchLine {
    BranchLine {
        line: r#"{"kind":"branch_transition"}"#.to_string(),
        decoded,
        wire,
    }
}

#[test]
fn branches_are_rebuilt_or_fail_loud() {
    let wire = || BranchWire {
        branch: id("b1"),
        from_branch: Some(id("b0")),
        frontier_seq: 2,
        follow: None,
        config_choice: None,
        quiesce: None,
    };
    let lines = vec![
        branch_line(Ok(rec(6, "branch_transition", "{}")), Ok(wire())),
        BranchLine {
            line: r#"{"kind":"probe"}"#.to_string(),
            decoded: Ok(rec(7, "probe", "{}")),
            wire: Err("not a branch".to_string()),
        },
    ];
    let records = recover_branches(&lines).unwrap();
    assert_eq!(records.len(), 1);
    assert_eq!(records[0].transition_seq, 6);
    assert_eq!(records[0].follow, MemoryFollow::FollowHead);
    assert_eq!(current_branch(&records, id("fresh")), id("b1"));
    assert_eq!(current_branch(&vec![], id("fresh")), id("fresh"));
    assert!(matches!(
        recover_branches(&vec![branch_line(
            Ok(rec(6, "branch_transition", "{}")),
            Err("missing field".to_string())
        )]),
        Err(SessionError::CorruptRecord(_))
    ));
    assert!(matches!(
        recover_branches(&vec![branch_line(Err("torn".to_string()), Ok(wire()))]),
        Err(SessionError::CorruptRecord(_))
    ));
}

#[test]
fn only_a_resume_lifts_the_pause() {
    let line = |kind: &str| TripLine {
        line: format!(r#"{{"kind":"{kind}"}}"#),
        decoded: Ok(rec(1, kind, "{}")),
        trip: Ok(text_json("trip")),
    };
    assert_eq!(
        recover_trip(&vec![line("breaker_tripped"), line("run_outcome")]).unwrap(),
        Some(text_json("trip"))
    );
    assert_eq!(
        recover_trip(&vec![line("breaker_tripped"), line("cognition_resumed")]).unwrap(),
        None
    );
    assert!(recover_trip(&vec![TripLine {
        line: r#"{"kind":"breaker_tripped"}"#.to_string(),
        decoded: Ok(rec(1, "breaker_tripped", "{}")),
        trip: Err("bad".to_string()),
    }])
    .is_err());
}

#[test]
fn backlinks_are_made_once() {
    let log = vec![rec(4, "memory_transition_backlink", r#"{"transition_id":"t1"}"#)];
    let events = pending_backlinks(&log, &vec![id("t1"), id("t2")], &text_json("Lifetime"));
    assert_eq!(events.len(), 1);
    assert!(doc(&events[0]).contains(r#""transition_id":"t2""#));
}

#[test]
fn identities_are_recovered_in_order() {
    let c = codec(&[], &["s1", "s2", "p1"]);
    let owner = rec(1, "memory_proposal", r#"{"owner":{"session":"s1"}}"#);
    let origin = rec(1, "transition", r#"{"origin_session":"s2"}"#);
    let none: Vec<Option<Id128>> = vec![];
    let found = |log: Vec<LogRecord>, lifetime: Vec<LogRecord>, lines: Vec<Option<Id128>>| {
        recover_session_id(&log, &lifetime, &vec![], &none, &lines, &c)
    };
    assert_eq!(found(vec![owner], vec![], vec![]), Some(id("s1")));
    assert_eq!(found(vec![], vec![], vec![None, Some(id("s3"))]), Some(id("s3")));
    assert_eq!(found(vec![], vec![], vec![]), None);
    assert_eq!(found(vec![], vec![origin], vec![]), Some(id("s2")));
    assert_eq!(
        recover_bound_project(
            &vec![rec(1, "project_bound", r#"{"project_id":"p1"}"#)],
            &c
        ),
        Some(id("p1"))
    );
}

// ---------- opening ----------

#[test]
fn a_session_opens_with_its_defaults() {
    let c = SessionConfig::default();
    assert_eq!(c.dir, ".");
    assert_eq!(c.stream, "default");
    assert_eq!(c.inline_max, 1024);
    assert_eq!(c.object_min, 8192);
    assert_eq!(c.max_state_bytes, 1_048_576);
    assert_eq!(c.approval_bound, 64);
    assert_eq!(next_seq(0, 0), 1);
    assert_eq!(next_seq(4, 9), 10);
}

#[test]
fn projects_are_registered_once() {
    let (entry, fresh) = project_entry(None, &id("p"), &id("s"), 3);
    assert!(fresh);
    assert_eq!(entry.created_session, id("s"));
    assert_eq!(entry.created_event, 3);
    let (again, fresh) = project_entry(Some(entry.clone()), &id("p"), &id("t"), 9);
    assert!(!fresh);
    assert_eq!(again, entry);
    let _: ProjectEntry = again;
}

#[test]
fn the_index_is_built_over_every_bound_scope() {
    let own = scopes_to_index(&None, &None, &None);
    assert_eq!(own.len(), 1);
    assert_eq!(own[0].scope, MemoryScope::Lifetime);
    assert_eq!(own[0].root, None);
    let both = scopes_to_index(&Some(digest("l")), &Some(id("p")), &Some(digest("r")));
    assert_eq!(both.len(), 2);
    assert_eq!(both[0].root, Some(digest("l")));
    assert_eq!(both[1].scope, MemoryScope::Project(id("p")));
    assert_eq!(both[1].root, Some(digest("r")));
}

#[test]
fn opening_facts_are_recorded_once() {
    let count = |batches: &Vec<Vec<Event>>, kind: &str| {
        batches
            .iter()
            .flatten()
            .filter(|e| e.kind == kind)
            .count()
    };
    let first = opening_events(
        &Some("unreadable".to_string()),
        false,
        vec![],
        &Some(id("p")),
        "/memory",
        true,
    );
    assert_eq!(count(&first, "safe_mode_activated"), 1);
    match &first[0][0].payload {
        Payload::Document(v) => {
            assert!(render(v).contains("config discovery degraded: unreadable"))
        }
        other => panic!("a document, got {other:?}"),
    }
    assert_eq!(count(&first, "project_bound"), 1);
    // Safe mode was committed already, and the project is bound.
    let second = opening_events(
        &Some("unreadable".to_string()),
        true,
        vec![],
        &Some(id("p")),
        "/memory",
        false,
    );
    assert_eq!(count(&second, "safe_mode_activated"), 0);
    assert_eq!(count(&second, "project_bound"), 0);
}

#[test]
fn recovery_reads_everything_from_the_log() {
    let log = vec![rec(1, "probe", "{}")];
    let r = recover(
        &log,
        &vec![],
        &vec![],
        &Originated {
            transitions: vec![id("t1")],
            scope: text_json("Lifetime"),
        },
        &None,
        id("fresh"),
        &codec(&[], &[]),
    )
    .unwrap();
    assert_eq!(r.branch, id("fresh"));
    assert_eq!(r.backlinks.len(), 1);
    assert!(r.pause.is_none());
    assert!(r.compacted.is_empty());
    assert!(r.records.is_empty());
}

// ---------- export and collection ----------

#[test]
fn a_bundle_is_verified_exactly_when_nothing_is_missing() {
    let object = |d: &str, present: bool| ClosureObject {
        digest: digest(d),
        present,
    };
    let full = export_bundle(
        2,
        5,
        &vec![ManifestFinding::Read {
            closure: vec![object("a", true), object("b", true)],
            pins: vec![digest("pin")],
        }],
    );
    assert!(full.verified);
    assert!(full.missing.is_empty());
    assert_eq!(full.frames, 2);
    assert_eq!(full.envelopes, 5);
    assert_eq!(full.identity_pins, vec![digest("pin")]);
    let partial = export_bundle(
        2,
        5,
        &vec![
            ManifestFinding::Absent {
                digest: digest("m1"),
            },
            ManifestFinding::Unreadable {
                digest: digest("m2"),
            },
            ManifestFinding::Read {
                closure: vec![object("a", false)],
                pins: vec![],
            },
        ],
    );
    assert!(!partial.verified);
    for d in ["m1", "m2", "a"] {
        assert!(partial.missing.contains(&digest(d)), "{d}");
    }
    let mut log = vec![rec(1, "a", "{}"), rec(2, "b", "{}")];
    log[0].snapshot = Some(digest("s1"));
    log[1].snapshot = Some(digest("s1"));
    assert_eq!(
        manifest_set(&log, &Some(digest("s2")), &codec(&["s1", "s2"], &[])),
        vec![digest("s1"), digest("s2")]
    );
}

#[test]
fn sets_hold_their_elements_once() {
    let s = digest_set(vec![digest("b"), digest("a"), digest("b")]);
    assert_eq!(s, vec![digest("a"), digest("b")]);
}

#[test]
fn referenced_objects_are_collected_and_free_text_is_not() {
    let c = codec(&["d1", "d2", "d3", "d4"], &[]);
    let mut first = rec(1, "note", r#"{"text":"d3"}"#);
    first.snapshot = Some(digest("d4"));
    let refs = collect(
        &vec![ReferringRecord {
            record: first,
            refs: vec![digest("d1")],
        }],
        &c,
    );
    assert!(refs.digests.contains(&digest("d1")));
    assert!(!refs.digests.contains(&digest("d3")));
    assert!(refs.manifests.contains(&digest("d4")));
    let roots = vec![digest("d2")];
    assert!(manifests_to_expand(&refs, &roots).contains(&digest("d4")));
    let all = reference_set(&refs, &roots, &vec![], &vec![vec![digest("x")]]);
    for d in ["d1", "d2", "x"] {
        assert!(all.contains(&digest(d)), "{d}");
    }
    assert_eq!(gc_run_event(text_json("r")).kind, "gc.run");
}

#[test]
fn writers_pin_what_is_in_flight() {
    let mut pins = WriterPins::new();
    pins.gc_pin(&digest("a"));
    pins.gc_pin(&digest("a"));
    assert!(pins.contains(&digest("a")));
    pins.gc_unpin(&digest("a"));
    assert!(!pins.contains(&digest("a")));
}

// ---------- forks ----------

#[test]
fn targets_and_sources_are_checked() {
    assert!(check_target(Errand::Fork, TargetState::Absent, "/t").is_ok());
    assert!(check_target(Errand::Fork, TargetState::Empty, "/t").is_ok());
    for errand in [Errand::Fork, Errand::Import] {
        for state in [TargetState::Filled, TargetState::NotADirectory] {
            assert!(check_target(errand, state, "/t")
                .unwrap_err()
                .text()
                .contains("/t"));
        }
    }
    assert!(check_source(SourceLog::File, "/s", "/s/log.zst").is_ok());
    assert!(check_source(SourceLog::Absent, "/s", "/s/log.zst").is_err());
    assert!(check_source(SourceLog::NotAFile, "/s", "/s/log.zst").is_err());
    let c = import_config("/t", Some(id("s")), Some(id("p")));
    assert_eq!(c.dir, "/t");
    assert_eq!(c.session_id, Some(id("s")));
    assert_eq!(c.project, Some(id("p")));
}

#[test]
fn a_fork_floor_only_reads() {
    let floor = fork_floor(&id("s"));
    assert!(!floor.grants.is_empty());
    for g in &floor.grants {
        assert_eq!(g.session, id("s"));
        assert!(g
            .capability
            .actions
            .iter()
            .all(|a| !a.contains("write") && !a.contains("exec")));
    }
}

#[test]
fn seeded_logs_end_at_the_root() {
    let c = codec(&["r1", "r2"], &[]);
    let frame = |start: u64, root: &str| Frame {
        start,
        len: 10,
        events: vec![rec(
            1,
            "memory_transition",
            &format!(r#"{{"accepted_new_root":"{root}"}}"#),
        )],
    };
    let frames = vec![frame(0, "r1"), frame(10, "r2")];
    assert_eq!(
        truncate_log_at(&frames, &digest("r1"), &c, "/log").unwrap(),
        10
    );
    assert_eq!(
        truncate_log_at(&frames, &digest("r2"), &c, "/log").unwrap(),
        20
    );
    assert_eq!(
        truncate_log_at(&frames, &digest("r3"), &c, "/log")
            .unwrap_err()
            .text(),
        "snapshot: memory root r3 is not committed by the copied transition log /log"
    );
}

#[test]
fn forks_name_their_source() {
    let c = CheckpointEvent {
        id: "e".to_string(),
        snapshot: digest("snap"),
        memory_root: Some(digest("lr")),
        project_memory_root: None,
    };
    let e = fork_event(
        &id("src"),
        4,
        &c,
        &text_json("follow"),
        &vec![digest("g")],
        &vec![],
        &vec![],
    );
    assert_eq!(e.kind, "forked");
    assert!(doc(&e).contains(r#""source_session":"src""#));
    assert_eq!(
        fork_pins(&c),
        Some(PinnedRoots {
            lifetime: digest("lr"),
            project: None
        })
    );
    let layers: Vec<RestoredLayer> = restored_layers(&vec![None, None]);
    assert!(layers.is_empty());
    let cfg = fork_config(
        SessionConfig::default(),
        "/t",
        &id("new"),
        &layers,
        &Some(id("p")),
    );
    assert_eq!(cfg.dir, "/t");
    assert_eq!(cfg.session_id, Some(id("new")));
    assert_eq!(cfg.project, Some(id("p")));
    assert_eq!(cfg.memory_root, None);
    let objects = fork_objects(&vec![digest("a"), digest("snap")], &digest("snap"));
    assert!(objects.contains(&digest("snap")));
    assert!(objects.contains(&digest("a")));
    assert!(workspace_manifests(&vec![], 4, &codec(&[], &[])).is_empty());
}

#[test]
fn only_own_forks_are_adopted() {
    let c = codec(&["snap"], &["src", "other"]);
    let own = vec![
        rec(1, "probe", "{}"),
        rec(2, "forked", r#"{"source_session":"src","checkpoint_seq":4}"#),
    ];
    let fact = check_fork(&own, 5, &id("fork"), &id("src"), &c).unwrap();
    assert_eq!(fact.head_seq, 4);
    assert_eq!(fact.frontier_seq, 4);
    assert!(check_fork(&own, 5, &id("fork"), &id("other"), &c).is_err());
    assert!(check_fork(&own[..1].to_vec(), 5, &id("fork"), &id("src"), &c).is_err());
    let follow = adopt_follow(&Some(digest("lr")), &None);
    assert_eq!(
        follow,
        MemoryFollow::PinnedAt {
            lifetime_root: digest("lr"),
            project_root: None
        }
    );
    assert_eq!(adopt_follow(&None, &None), MemoryFollow::FollowHead);
    let e = adopt_event(
        &id("fork"),
        &fact,
        &digest("snap"),
        &follow,
        &Json::Null,
        &None,
        &vec![],
        9,
    );
    assert_eq!(e.kind, "fork_adopted");
    assert_eq!(
        head_snapshot(&Some(digest("now")), &vec![], 4, &id("fork")).unwrap(),
        digest("now")
    );
    assert!(head_snapshot(&None, &vec![], 4, &id("fork")).is_err());
    let receipt = adopt_receipt(&id("fork"), 5, &follow);
    assert_eq!(receipt.fork_session, id("fork"));
    assert_eq!(receipt.fork_seq, fact.head_seq);
    assert_eq!(receipt.follow, follow);
}

#[test]
fn a_fork_is_receipted_at_its_checkpoint() {
    let at = CheckpointRef {
        session_id: id("src"),
        seq: 4,
    };
    let receipt = fork_receipt(&id("fork"), &at, &id("branch"), &MemoryFollow::FollowHead);
    assert_eq!(receipt.session_id, id("fork"));
    assert_eq!(receipt.checkpoint_seq, 4);
    assert_eq!(receipt.branch, id("branch"));
    assert_eq!(receipt.follow, MemoryFollow::FollowHead);
}

#[test]
fn fork_objects_come_from_the_first_store_that_holds_them() {
    let d = digest("d");
    assert_eq!(
        resolve_fork_object(&vec![StoreRead::Missing, StoreRead::Found], &d).unwrap(),
        1
    );
    assert!(resolve_fork_object(&vec![StoreRead::Missing], &d).is_err());
    assert!(
        resolve_fork_object(&vec![StoreRead::Unreadable("io".to_string())], &d).is_err()
    );
    for f in [
        ObjectFault::Closure {
            digest: d.clone(),
            fault: "x".to_string(),
        },
        ObjectFault::Workspace {
            digest: d.clone(),
            fault: "x".to_string(),
        },
        ObjectFault::Blob {
            digest: d.clone(),
            fault: "x".to_string(),
        },
        ObjectFault::LifetimeRoot {
            digest: d.clone(),
            fault: "x".to_string(),
        },
    ] {
        assert!(object_failure(&f).text().ends_with("x"), "{f:?}");
    }
    assert_eq!(
        object_failure(&ObjectFault::CheckpointProjectRoot {
            digest: d,
            fault: "io".to_string(),
        })
        .text(),
        "snapshot: checkpoint project root d unreadable: io"
    );
}

#[test]
fn a_fork_is_seeded_with_the_scopes_that_the_checkpoint_pins() {
    let mut c = CheckpointEvent {
        id: "e".to_string(),
        snapshot: digest("snap"),
        memory_root: Some(digest("lr")),
        project_memory_root: Some(digest("pr")),
    };
    let both = memory_seeds(&c, &Some(id("p")));
    assert_eq!(both.len(), 2);
    assert_eq!(both[0].scope, MemoryScope::Lifetime);
    assert_eq!(both[0].root, digest("lr"));
    assert_eq!(both[1].scope, MemoryScope::Project(id("p")));
    assert_eq!(both[1].root, digest("pr"));
    assert_eq!(memory_seeds(&c, &None).len(), 1);
    c.memory_root = None;
    c.project_memory_root = None;
    assert!(memory_seeds(&c, &Some(id("p"))).is_empty());
}

// ---------- layout ----------

fn manifest(session: &str, created_us: u64) -> SessionManifest {
    SessionManifest {
        schema: SESSION_MANIFEST_SCHEMA,
        session: id(session),
        log: SESSION_LOG_NAME.to_string(),
        created_us,
        project: None,
    }
}

fn at_path(read: Option<Result<SessionManifest, String>>) -> ManifestRead {
    ManifestRead {
        path: format!("/s/{MANIFEST_NAME}"),
        read,
    }
}

#[test]
fn the_newest_session_is_resumed() {
    let found = scan_sessions(&vec![
        at_path(Some(Ok(manifest("a", 5)))),
        at_path(None),
        at_path(Some(Ok(manifest("b", 7)))),
        at_path(Some(Ok(manifest("c", 7)))),
    ])
    .unwrap();
    assert_eq!(found.as_ref().unwrap().id, id("c"));
    assert_eq!(resume_or_fresh(found, id("fresh")).id, id("c"));
    assert_eq!(
        resume_or_fresh(scan_sessions(&vec![]).unwrap(), id("fresh")).id,
        id("fresh")
    );
    assert_eq!(
        scan_sessions(&vec![at_path(Some(Err("eof".to_string())))])
            .unwrap_err()
            .text(),
        "corrupt canonical record: session manifest /s/session.json: eof"
    );
}

#[test]
fn manifests_of_another_schema_are_corrupt() {
    let mut m = manifest("a", 5);
    m.schema = 9;
    assert_eq!(
        read_manifest(&at_path(Some(Ok(m)))).unwrap_err().text(),
        "corrupt canonical record: session manifest /s/session.json: unsupported schema 9"
    );
    assert_eq!(read_manifest(&at_path(None)).unwrap(), None);
    assert_eq!(
        new_manifest(&id("s"), first_frame_us(&vec![11, 12]), &Some(id("p"))),
        SessionManifest {
            schema: SESSION_MANIFEST_SCHEMA,
            session: id("s"),
            log: SESSION_LOG_NAME.to_string(),
            created_us: 11,
            project: Some(id("p")),
        }
    );
    assert_eq!(new_manifest(&id("s"), None, &None).created_us, 0);
}

#[test]
fn migrations_are_resumable() {
    assert_eq!(
        plan_resolution(true, &Some(id("asked"))),
        Resolution::Migrate
    );
    assert_eq!(
        plan_resolution(false, &Some(id("asked"))),
        Resolution::Requested(id("asked"))
    );
    assert_eq!(plan_resolution(false, &None), Resolution::Newest);
    let (_, steps) = migrate_legacy(Some(id("s")), "/d", false, true, true, true).unwrap();
    assert_eq!(steps.last(), Some(&MigrationStep::WriteManifest));
    assert_eq!(steps.len(), 5);
    let (_, steps) = migrate_legacy(Some(id("s")), "/d", true, true, true, true).unwrap();
    assert!(steps.is_empty());
    assert_eq!(
        migrate_legacy(None, "/d", false, true, true, true)
            .unwrap_err()
            .text(),
        "invalid input: legacy session dir /d carries no recoverable session id; refusing to migrate"
    );
    let resolved = ResolvedSession {
        id: id("s"),
        project: Some(id("p")),
    };
    assert_eq!(bound_project(&None, &resolved), Some(id("p")));
    assert_eq!(bound_project(&Some(id("q")), &resolved), Some(id("q")));
}

// ---------- memory ----------

fn claim(name: &str, rank: u64, sensitivity: &str) -> StoredClaim {
    StoredClaim {
        digest: digest(&format!("claim-{name}")),
        claim: Claim {
            claim_id: id(name),
            kind: "decision".to_string(),
            content: format!("content of {name}"),
            sensitivity: sensitivity.to_string(),
            rank,
            source_event: 1,
            observed_at: None,
            valid_from: None,
        },
    }
}

#[test]
fn rendered_memory_is_as_sensitive_as_its_claims() {
    let mut fold = empty_fold();
    fold.claims.push(claim("a", 0, "public"));
    fold.claims.push(claim("b", 2, "secret"));
    fold.claims.push(claim("c", 1, "internal"));
    let s = render_memory_source(&digest("root"), &fold);
    assert_eq!(s.sensitivity, "secret");
    assert_eq!(s.claim_digests.len(), 3);
    assert!(s.text.contains("content of a"));
    assert_eq!(active_claim(&fold, &id("b")), Some(digest("claim-b")));
    assert_eq!(active_claim(&fold, &id("x")), None);
    assert_eq!(
        proposed_claim_digest(
            &vec![rec(
                1,
                "memory_proposal",
                r#"{"claim_id":"a","claim_digest":"claim-a"}"#
            )],
            &codec(&["claim-a"], &["a"]),
            &id("a")
        ),
        Some(digest("claim-a"))
    );
}

fn request() -> TransitionRequest {
    TransitionRequest {
        scope: MemoryScope::Lifetime,
        scope_document: text_json("Lifetime"),
        kind: TransitionKind::RootApproval,
        origin_kind: "memory_root_proposed".to_string(),
        origin_payload: record(no_fields()),
        decision_digest: digest("decision"),
        added_claims: vec![digest("claim")],
        added_edges: vec![],
        retracted: vec![],
        deferred_claim: digest("claim"),
        expected_root: Some(digest("r0")),
    }
}

#[test]
fn a_lost_race_is_retried_on_the_actual_root_and_then_deferred() {
    let mut t = Transition::start(request());
    assert_eq!(t.phase(), &TransitionPhase::Origin);
    t.events_committed(4);
    for n in 1..=MAX_ATTEMPTS {
        match t.phase() {
            TransitionPhase::Propose {
                origin, expected, ..
            } => {
                assert_eq!(*origin, 4);
                let want = if n == 1 {
                    "r0".to_string()
                } else {
                    format!("r{}", n - 1)
                };
                assert_eq!(expected, &Some(digest(&want)));
            }
            other => panic!("a proposal, got {other:?}"),
        }
        t.proposal_answered(Proposed::Lost {
            actual: Some(digest(&format!("r{n}"))),
            installed: vec![digest("obj")],
        });
    }
    assert!(matches!(t.phase(), TransitionPhase::Defer { .. }));
    assert!(!t.due_events().is_empty());
    t.events_committed(9);
    assert_eq!(t.phase(), &TransitionPhase::Deferred);
    assert_eq!(t.result().1, None);
}

#[test]
fn a_committed_transition_is_linked_back() {
    let mut t = Transition::start(request());
    t.events_committed(4);
    t.proposal_answered(Proposed::Committed {
        transition: id("t1"),
    });
    assert_eq!(
        t.phase(),
        &TransitionPhase::Backlink {
            transition: id("t1")
        }
    );
    t.events_committed(5);
    assert_eq!(t.result().1, Some(id("t1")));
}

#[test]
fn a_retry_is_proposed_under_the_same_key() {
    let by = Principal {
        session: id("s"),
        generation: 0,
        run: Some(0),
    };
    let mut t = Transition::start(request());
    assert_eq!(t.state_head(&digest("composition")), None);
    t.events_committed(4);
    let m = t.manifest(&id("t1"));
    assert_eq!(m.parent, Some(digest("r0")));
    assert_eq!(m.added_claims, vec![digest("claim")]);
    assert_eq!(m.transition_id, id("t1"));
    let first = t.proposal(&id("s"), &by, &id("t1"), &digest("n1"));
    assert_eq!(first.expected_old_root, Some(digest("r0")));
    assert_eq!(first.accepted_new_root, digest("n1"));
    assert_eq!(first.origin_kind, "memory_root_proposed");
    assert_eq!(first.decision_principal, by);
    assert_eq!(
        first.idempotency_key,
        IdempotencyKey {
            session: id("s"),
            event: 4,
            decision: digest("decision"),
        }
    );
    t.proposal_answered(Proposed::Lost {
        actual: Some(digest("r9")),
        installed: vec![],
    });
    let second = t.proposal(&id("s"), &by, &id("t2"), &digest("n2"));
    assert_eq!(second.idempotency_key, first.idempotency_key);
    assert_eq!(second.expected_old_root, Some(digest("r9")));
    assert_eq!(t.manifest(&id("t2")).parent, Some(digest("r9")));
    t.proposal_answered(Proposed::Committed {
        transition: id("t2"),
    });
    assert_eq!(
        t.state_head(&digest("composition")),
        Some(digest("composition"))
    );
}

#[test]
fn a_proposed_claim_belongs_to_the_project_and_its_proposer() {
    let args = r#"{"claim":{"kind":"decision","content":"x"}}"#;
    let p = read_proposal(true, &read(args).unwrap(), &codec(&[], &[])).unwrap();
    let i = intent(args);
    let c = proposed_claim(&id("s"), &i, &p, &id("new"), &id("project"));
    assert_eq!(c.visibility_scope, MemoryScope::Project(id("project")));
    assert_eq!(c.owner, i.principal);
    assert_eq!(c.sensitivity, "internal");
    assert_eq!(c.observed_at, None);
    assert_eq!(
        c.provenance,
        Provenance {
            session: id("s"),
            event: 8,
            source_claims: vec![],
            evidence_excerpt: String::new(),
        }
    );
    let e = supersede_edge(&id("s"), &i, &id("old"), &id("new"));
    assert_eq!(e.from, id("old"));
    assert_eq!(e.to, Some(id("new")));
    assert_eq!(e.kind, EdgeKind::Supersedes);
    assert_eq!(e.provenance, c.provenance);
}

#[test]
fn a_promoted_claim_says_what_its_source_says() {
    let mut source = claim("c1", 0, "secret");
    source.claim.observed_at = Some(5);
    let p = Promotion {
        source,
        evidence: "seen".to_string(),
        approval: digest("a"),
    };
    let mut i = intent("{}");
    i.intent_event = None;
    let from = promotion_provenance(&id("s"), &i, &p);
    assert_eq!(from.event, 0);
    assert_eq!(from.source_claims, vec![digest("claim-c1")]);
    assert_eq!(from.evidence_excerpt, "seen");
    let c = promoted_claim(&p, &id("new"), &i.principal, &from);
    assert_eq!(c.visibility_scope, MemoryScope::Lifetime);
    assert_eq!(c.content, "content of c1");
    assert_eq!(c.sensitivity, "secret");
    assert_eq!(c.observed_at, Some(5));
    let e = promotion_edge(&p, &id("new"), &from);
    assert_eq!(e.from, id("new"));
    assert_eq!(e.to, Some(id("c1")));
    assert_eq!(e.kind, EdgeKind::PromotedFrom);
}

fn intent(args: &str) -> ToolIntent {
    ToolIntent {
        call_id: "c".to_string(),
        run_id: "r".to_string(),
        principal: Principal {
            session: id("s"),
            generation: 0,
            run: None,
        },
        tool: "memory.propose".to_string(),
        args: read(args).unwrap(),
        approval: Some(digest("approval")),
        origin_snapshot: None,
        intent_event: Some(8),
        annotations: vec![],
    }
}

#[test]
fn a_proposal_goes_from_its_event_to_its_transition() {
    let args = r#"{"claim":{"kind":"decision","content":"x","sensitivity":"public"}}"#;
    let c = codec(&[], &["old"]);
    assert!(read_proposal(false, &read(args).unwrap(), &c).is_err());
    assert!(read_proposal(true, &read("{}").unwrap(), &c).is_err());
    let p = read_proposal(true, &read(args).unwrap(), &c).unwrap();
    assert_eq!(p.kind, "decision");
    assert_eq!(p.supersedes, None);
    let mut unapproved = intent(args);
    unapproved.approval = None;
    let mut flow = ProposeFlow::start(
        unapproved,
        p.clone(),
        id("claim"),
        digest("claim-d"),
        id("project"),
        text_json("scope"),
        text_json("owner"),
    );
    flow.proposal_committed(&Some(digest("head")), &None);
    match flow.phase() {
        ProposePhase::Done(o) => assert_eq!(
            render(&o.result),
            r#"{"claim_id":"claim","claim_digest":"claim-d","status":"proposed"}"#
        ),
        other => panic!("proposed only, got {other:?}"),
    }
    let i = intent(args);
    assert_eq!(claim_source(&i), 8);
    let mut flow = ProposeFlow::start(
        i,
        p,
        id("claim"),
        digest("claim-d"),
        id("project"),
        text_json("scope"),
        text_json("owner"),
    );
    assert_eq!(flow.phase(), &ProposePhase::Commit);
    assert_eq!(flow.proposal_event().kind, "memory_proposal");
    flow.proposal_committed(&Some(digest("head")), &None);
    match flow.phase() {
        ProposePhase::Claim(r) => {
            assert_eq!(r.scope, MemoryScope::Project(id("project")));
            assert_eq!(r.added_claims, vec![digest("claim-d")]);
            assert_eq!(r.expected_root, Some(digest("head")));
        }
        other => panic!("a transition, got {other:?}"),
    }
    flow.claim_decided("approved".to_string(), Some(id("t")), &None, &None);
    match flow.phase() {
        ProposePhase::Done(o) => {
            assert!(render(&o.result).contains(r#""approved""#));
            assert_eq!(o.error, None);
        }
        other => panic!("done, got {other:?}"),
    }
}

#[test]
fn a_superseded_claim_is_retracted_after_the_approval() {
    let args = r#"{"claim":{"kind":"decision","content":"x","sensitivity":"public","supersedes":"old"}}"#;
    let p = read_proposal(true, &read(args).unwrap(), &codec(&[], &["old"])).unwrap();
    assert_eq!(p.supersedes, Some(id("old")));
    let start = |p: &kanbei::memory_tools::Proposal| {
        ProposeFlow::start(
            intent(args),
            p.clone(),
            id("claim"),
            digest("claim-d"),
            id("project"),
            text_json("scope"),
            text_json("owner"),
        )
    };
    let mut flow = start(&p);
    flow.proposal_committed(&Some(digest("head")), &None);
    assert_eq!(flow.phase(), &ProposePhase::LookUp { target: id("old") });
    let mut missing = start(&p);
    missing.proposal_committed(&Some(digest("head")), &None);
    missing.target_looked_up(&empty_fold(), &None);
    match missing.phase() {
        ProposePhase::Done(o) => {
            assert_eq!(o.error.as_deref(), Some("supersedes target not found"))
        }
        other => panic!("refused, got {other:?}"),
    }
    let mut fold = empty_fold();
    fold.claims.push(claim("old", 0, "public"));
    flow.target_looked_up(&fold, &None);
    assert!(matches!(flow.phase(), ProposePhase::InstallEdge { .. }));
    flow.edge_installed(digest("edge"), &Some(digest("head")), &None);
    assert!(matches!(flow.phase(), ProposePhase::Claim(_)));
    flow.claim_decided(
        "approved".to_string(),
        Some(id("t")),
        &Some(digest("head2")),
        &None,
    );
    match flow.phase() {
        ProposePhase::Edge(r) => {
            assert_eq!(r.added_edges, vec![digest("edge")]);
            assert_eq!(r.expected_root, Some(digest("head2")));
        }
        other => panic!("the edge, got {other:?}"),
    }
    flow.edge_decided("approved".to_string(), Some(id("t2")), &None);
    assert!(matches!(flow.phase(), ProposePhase::Done(_)));
}

#[test]
fn reviews_need_a_claim_and_a_decision() {
    let c = codec(&[], &["claim"]);
    let review = |args: &str| read_review(true, &read(args).unwrap(), &c);
    assert!(review("{}").is_err());
    let approve = review(r#"{"claim_id":"claim","decision":"approve","reason":"ok"}"#).unwrap();
    assert!(matches!(
        plan_review(&approve, &None, &None, &None),
        ReviewPlan::Refuse(_)
    ));
    let reject = review(r#"{"claim_id":"claim","decision":"reject","reason":"no"}"#).unwrap();
    match plan_review(&reject, &None, &Some(digest("d")), &None) {
        ReviewPlan::Record { kind, digest: d } => {
            assert_eq!(d, digest("d"));
            let e = review_event(&reject, &kind, &d, &text_json("principal"));
            assert_eq!(e.kind, kind);
            assert!(render(&review_recorded(&reject, &d)).contains("claim"));
        }
        other => panic!("a record, got {other:?}"),
    }
    match plan_review(&approve, &None, &Some(digest("d")), &Some(digest("a"))) {
        ReviewPlan::Approve {
            digest: d,
            approval,
        } => {
            assert_eq!(d, digest("d"));
            assert_eq!(approval, digest("a"));
        }
        other => panic!("an approval, got {other:?}"),
    }
}

#[test]
fn promotions_need_an_active_claim_and_an_approval() {
    let mut fold = empty_fold();
    fold.claims.push(claim("c1", 0, "public"));
    let c = codec(&[], &["c1", "c2"]);
    let args = read(r#"{"claim_id":"c1","evidence":"seen"}"#).unwrap();
    assert!(plan_promotion(false, &args, &c, &fold, &Some(digest("a"))).is_err());
    assert!(plan_promotion(true, &args, &c, &fold, &None).is_err());
    let p = plan_promotion(true, &args, &c, &fold, &Some(digest("a"))).unwrap();
    assert_eq!(p.source.claim.claim_id, id("c1"));
    assert_eq!(p.approval, digest("a"));
    let other = read(r#"{"claim_id":"c2","evidence":"seen"}"#).unwrap();
    assert!(plan_promotion(true, &other, &c, &fold, &Some(digest("a"))).is_err());
}

#[test]
fn children_do_not_query_lifetime_memory() {
    let args = read(r#"{"query":"q"}"#).unwrap();
    let plan = |child: bool| {
        plan_memory_query(
            &args,
            &Some(id("p")),
            child,
            &None,
            &Some(digest("lr")),
            &Some(digest("pr")),
        )
        .unwrap()
    };
    let own = plan(false);
    assert!(own.scopes.contains(&MemoryScope::Lifetime));
    assert!(own.index.iter().any(|i| i.root == digest("lr")));
    let child = plan(true);
    assert!(!child.scopes.contains(&MemoryScope::Lifetime));
    assert_eq!(child.scopes, vec![MemoryScope::Project(id("p"))]);
    assert_eq!(child.max_results, 16);
    assert!(plan_memory_query(&read("{}").unwrap(), &None, false, &None, &None, &None).is_err());
}

#[test]
fn query_results_list_their_claims() {
    let (v, digests) = memory_query_result(&SearchResult {
        claims: vec![FoundClaim {
            digest: digest("d"),
            text: "t".to_string(),
            kind: "k".to_string(),
            sensitivity: "public".to_string(),
            status: text_json("active"),
            score: Json::Number("0.5".to_string()),
            contradictions: vec![Contradiction {
                digest: digest("x"),
                text: "other".to_string(),
                supersedes: true,
            }],
            source_events: vec![3],
        }],
        query_entities: vec![FoundEntity {
            key: "e".to_string(),
            kind: "k".to_string(),
        }],
        fts_used: Json::Bool(true),
        expanded: list(vec![]),
    });
    assert_eq!(digests, vec![digest("d")]);
    assert!(render(&v).contains(r#""score":0.5"#));
}

#[test]
fn child_budgets_are_clamped() {
    let args = |t: &str| read(t).unwrap();
    let b = plan_child_spawn(
        false,
        &args(r#"{"prompt":"go","budgets":{"deadline_secs":999999,"tokens":999999,"tools":999999}}"#),
        0,
        Some(4),
    )
    .unwrap();
    assert_eq!(b.deadline_secs, Some(CHILD_DEADLINE_MAX));
    assert_eq!(b.tokens, Some(CHILD_TOKENS_MAX));
    assert_eq!(b.tools, Some(CHILD_TOOLS_MAX));
    assert_eq!(b.children, Some(0));
    assert!(plan_child_spawn(true, &args(r#"{"prompt":"go"}"#), 0, None).is_err());
    assert!(plan_child_spawn(false, &args("{}"), 0, None).is_err());
    assert!(plan_child_spawn(false, &args(r#"{"prompt":"go"}"#), 4, Some(4)).is_err());
    let long = format!(r#"{{"prompt":"{}"}}"#, "x".repeat(CHILD_PROMPT_MAX + 1));
    assert!(plan_child_spawn(false, &args(&long), 0, None).is_err());
    let r = render(&child_spawn_result("run", "CompletedGoal", 5, 2));
    assert!(r.contains(r#""run""#) && r.contains("CompletedGoal"));
}

// ---------- projection ----------

fn recent(seq: u64, payload: &str) -> RecentEvent {
    RecentEvent {
        seq,
        kind: "note".to_string(),
        payload: read(payload).unwrap(),
    }
}

#[test]
fn projections_stay_on_the_path_and_in_the_prefix() {
    let s = state(vec![branch_record("b1", 3, 7)]);
    let events: Vec<RecentEvent> = (1..=9).map(|n| recent(n, r#"{"t":1}"#)).collect();
    let shown: Vec<u64> = trajectory_events(&events, &s, 10).iter().map(|e| e.seq).collect();
    assert!(shown.iter().all(|n| s.on_path(*n)));
    assert!(shown.contains(&3) && !shown.contains(&5));
    assert!(recent_causal(&events, &s).iter().all(|n| s.on_path(*n)));
    assert_eq!(frozen_seq(10), 9);
    for (a, b) in selected_ranges(&s, 10) {
        assert!(a <= b && b <= 9);
    }
    let long = vec![recent(1, &format!(r#"{{"t":"{}"}}"#, "é".repeat(900)))];
    let text = &trajectory_events(&long, &state(vec![]), 2)[0].text;
    assert!(text.len() <= EVENT_TEXT_MAX + "…".len());
}

#[test]
fn evidence_carries_its_contradictions() {
    let mut fold = empty_fold();
    fold.claims.push(claim("a", 0, "public"));
    fold.claims.push(claim("b", 0, "public"));
    fold.edges.push(ClaimEdge {
        from: id("b"),
        to: Some(id("a")),
        kind: EdgeKind::Contradicts,
    });
    let scored = vec![ScoredClaim {
        digest: digest("claim-a"),
        claim: claim("a", 0, "public").claim,
        score: Json::Number("0.25".to_string()),
    }];
    let status_of = |c: Id128, active: Vec<Id128>, edges: Vec<ClaimEdge>| {
        let names: Vec<String> = active.iter().map(|a| a.text.clone()).collect();
        text_json(&format!("{} of {} with {}", c.text, names.join(","), edges.len()))
    };
    let found = evidence(&fold, &scored, &status_of);
    assert_eq!(found.len(), 1);
    assert_eq!(found[0].status, text_json("a of a,b with 1"));
    assert_eq!(found[0].contradictions.len(), 1);
    assert_eq!(found[0].text, "content of a");
    assert_eq!(found[0].source_events, vec![1]);
}

#[test]
fn sources_are_readable_up_to_the_frozen_prefix() {
    assert!(source_readable(&SourceRef::Harness, 0));
    assert!(source_readable(&SourceRef::SessionEvent(5), 5));
    assert!(!source_readable(&SourceRef::SessionEvent(6), 5));
    assert!(source_readable(&SourceRef::MemoryClaim(digest("d")), 0));
    assert!(source_readable(&SourceRef::CompactionRange(1, 9), 5));
    assert!(source_readable(&SourceRef::ModuleSchema("m".to_string()), 0));
}

fn budgets(tokens: u64) -> Budgets {
    Budgets {
        deadline_secs: Some(60),
        tokens: Some(tokens),
        tools: None,
        children: Some(0),
    }
}

#[test]
fn a_child_is_shown_no_lifetime_memory() {
    let mut fold = empty_fold();
    fold.claims.push(claim("a", 0, "public"));
    let trigger = Trigger {
        kind: "message".to_string(),
        referent: Some(digest("t")),
    };
    assert_eq!(trigger_fragment(&trigger).kind, "message");
    let input = |child: bool| {
        project_context(
            4,
            child,
            &read(r#"{"tools":[]}"#).unwrap(),
            &vec![],
            &state(vec![]),
            &Some(digest("lr")),
            &Some(fold.clone()),
            &None,
            &None,
            text_json("view"),
            &vec![],
            &trigger,
            &digest_of,
            &|_: Id128, _: Vec<Id128>, _: Vec<ClaimEdge>| Json::Null,
        )
    };
    assert_eq!(input(false).active, text_json("view"));
    let salience = |child: bool| {
        salience_input(
            4,
            child,
            &vec![],
            &state(vec![]),
            &vec!["loop".to_string()],
            &vec![digest("pin")],
            &Some(fold.clone()),
            &None,
        )
    };
    assert_eq!(salience(false).fold, fold);
    assert_eq!(salience(true).fold, empty_fold());
    assert_eq!(salience(true).open_loops, vec!["loop".to_string()]);
    assert_eq!(salience(true).pins, vec![digest("pin")]);
    assert_eq!(salience(true).top_n, SALIENCE_TOP);
    assert!(input(false).lifetime.is_some());
    assert!(input(true).lifetime.is_none());
    assert_eq!(input(false).max_total_tokens, MAX_TOTAL_TOKENS);
    assert_eq!(input(false).max_volatile_tokens, MAX_VOLATILE_TOKENS);
    assert_eq!(input(false).frozen_seq, 3);
    let (p, context) = projected(
        &digest("proj"),
        CachePlan::Uncached,
        vec![],
        vec![1, 2],
        &Some(digest("lr")),
        &None,
        true,
        Some(budgets(5)),
        budgets(9),
        &digest_of,
    );
    assert_eq!(context.budget, budgets(5));
    assert_eq!(run_budgets(false, Some(budgets(5)), budgets(9)), budgets(9));
    assert_eq!(run_budgets(true, None, budgets(9)), budgets(9));
    assert_eq!(p.memory_roots, vec![digest("lr")]);
    assert_eq!(context.selected_events, vec![1, 2]);
    assert_eq!(context.projection_digest, Some(digest("proj")));
}

// ---------- what was committed is read back ----------

fn committed(seq: u64, e: &Event) -> LogRecord {
    rec(seq, &e.kind, &doc(e))
}

#[test]
fn committed_facts_are_read_back() {
    let c = codec(&["snap", "lr", "pr", "claim-d"], &["src", "p", "claim"]);
    let e = state(vec![])
        .create_checkpoint(
            &Some("before the change".to_string()),
            2,
            &digest("snap"),
            &Some(digest("lr")),
            &Some(digest("pr")),
            &digest("composition"),
        )
        .unwrap();
    let at = CheckpointRef {
        session_id: id("src"),
        seq: 2,
    };
    let log = vec![rec(1, "probe", "{}"), committed(2, &e)];
    let checkpoint = read_checkpoint(&at, &id("src"), 3, &log, &c).unwrap();
    assert_eq!(checkpoint.id, log[1].id);
    assert_eq!(checkpoint.snapshot, digest("snap"));
    assert_eq!(checkpoint.memory_root, Some(digest("lr")));
    assert_eq!(checkpoint.project_memory_root, Some(digest("pr")));

    let e = fork_event(
        &id("src"),
        2,
        &checkpoint,
        &text_json("follow"),
        &vec![],
        &vec![],
        &vec![],
    );
    let log = vec![rec(1, "probe", "{}"), committed(3, &e)];
    let fact = check_fork(&log, 8, &id("fork"), &id("src"), &c).unwrap();
    assert_eq!(
        (fact.forked_seq, fact.frontier_seq, fact.head_seq),
        (3, 2, 7)
    );

    let batches = opening_events(&None, false, vec![], &Some(id("p")), "mr", true);
    let bound = batches
        .iter()
        .flatten()
        .find(|e| e.kind == "project_bound")
        .unwrap();
    let log = vec![rec(1, "probe", "{}"), committed(2, bound)];
    assert_eq!(recover_bound_project(&log, &c), Some(id("p")));

    let args = r#"{"claim":{"kind":"decision","content":"x","sensitivity":"public"}}"#;
    let flow = ProposeFlow::start(
        intent(args),
        read_proposal(true, &read(args).unwrap(), &c).unwrap(),
        id("claim"),
        digest("claim-d"),
        id("project"),
        text_json("scope"),
        text_json("owner"),
    );
    let log = vec![rec(1, "probe", "{}"), committed(2, &flow.proposal_event())];
    assert_eq!(
        proposed_claim_digest(&log, &c, &id("claim")),
        Some(digest("claim-d"))
    );
}

#[test]
fn snapshots_move_with_the_state_only() {
    let c = codec(&[], &[]);
    let mut s = starting_state(0, 0, vec![], Some(digest("genesis")));
    assert_eq!(s.next_seq, 1);
    assert_eq!(s.snapshot, Some(digest("genesis")));
    let two = vec![encoded("note", "{}"), encoded("note", "{}")];
    let pending = s.commit(&two, &c, None, 10, vec![digest("o")]);
    let seqs: Vec<u64> = pending.events.iter().map(|e| e.seq).collect();
    assert_eq!(seqs, vec![1, 2]);
    let r = s.settle(pending, None);
    assert_eq!((r.first_seq, r.last_seq, r.count, r.frame_len), (1, 2, 2, 10));
    assert_eq!(r.objects, vec![digest("o")]);
    assert_eq!(r.pre_snapshot, Some(digest("genesis")));
    assert_eq!(r.post_snapshot, None);
    assert_eq!(s.snapshot, Some(digest("genesis")));
    let pending = s.commit(&two, &c, Some(digest("head")), 10, vec![]);
    assert_eq!(pending.state_head, Some(digest("head")));
    let r = s.settle(pending, Some(digest("after")));
    assert_eq!(r.pre_snapshot, Some(digest("genesis")));
    assert_eq!(r.post_snapshot, Some(digest("after")));
    assert_eq!(s.snapshot, Some(digest("after")));
    assert_eq!(s.next_seq, 5);
}

#[test]
fn a_settled_log_is_reopened_as_it_stands() {
    let log = vec![
        rec(1, "tool_intent", r#"{"call_id":"c1","tool":"fs.read"}"#),
        rec(2, "tool_outcome", r#"{"call_id":"c1"}"#),
    ];
    let s = starting_state(2, 2, vec![], None);
    assert_eq!(s.next_seq, 3);
    assert_eq!(s.snapshot, None);
    assert!(classify_pending_intents(&log).is_empty());
    assert!(opening_events(&None, false, vec![], &Some(id("p")), "mr", false).is_empty());
}
