//! What the committed documents say, field by field.
use vstd::prelude::*;
use crate::branch;
use crate::branch::{
    BranchRecordView, CheckpointEventView, ConfigChoiceRecordView, QuiesceRecordView,
};
use crate::cognition;
use crate::contribution;
use crate::contribution::{
    ApprovalSettings, ContextPredicate, ContributionView, HookKind, KeyReferenceView, KeymapOrigin,
    KindView, ProviderSettingsView,
};
use crate::elements;
use crate::event::{EventView, PayloadView};
use crate::gc;
use crate::hooks;
use crate::hooks::{DecisionView, HookBindingView, HookError, HookFaultView};
use crate::intents;
use crate::intents::{PendingIntentView, QuiescedIntentView};
use crate::json;
use crate::json::JsonView;
use crate::memory_tools;
use crate::memory_tools::{
    FoundClaimView, PromotionView, ProposeFlowView, ReviewRequestView, SearchResultView,
    SupersedeEdgeView,
};
use crate::opening;
use crate::services;
use crate::services::{DependencyView, EntryView, KeyView, ProviderView};
use crate::switch;
use crate::switch::{ForkFactView, RestoredLayerView};
use crate::tool_call;
use crate::tool_call::{BoundaryFactView, BoundaryKind};
use crate::tools::{AnnotationView, ToolIntentView};
use crate::transition;

verus! {

/// The document of an event.
pub open spec fn document_of(e: EventView) -> JsonView {
    match e.payload {
        PayloadView::Document(d) => d,
        _ => JsonView::Null,
    }
}

/// How many fields a document has.
pub open spec fn width(d: JsonView) -> nat {
    match d {
        JsonView::Object(fields) => fields.len(),
        _ => 0,
    }
}

/// The field at `k` has this name and this value.
pub open spec fn states(d: JsonView, k: int, name: Seq<char>, v: JsonView) -> bool {
    d is Object && 0 <= k < d->Object_0.len() && d->Object_0[k].name == name && d->Object_0[k].value
        == v
}

/// What is there is written as it is, and what is not as null.
pub proof fn law_absent_values_are_null(t: Seq<char>, n: u64, s: Seq<Seq<char>>, i: int)
    requires
        0 <= i < s.len(),
    ensures
        json::text_or_null(Some(t)) == JsonView::Text(t),
        json::text_or_null(None) == JsonView::Null,
        json::number_or_null(Some(n)) == JsonView::Unsigned(n),
        json::number_or_null(None) == JsonView::Null,
        json::text_list(s) is List,
        json::text_list(s)->List_0.len() == s.len(),
        json::text_list(s)->List_0[i] == JsonView::Text(s[i]),
{
}

/// The record of a transition says where the branch begins, what it comes
/// from, and everything that it is pinned to.
pub proof fn law_transitions_are_recorded_whole(
    record: BranchRecordView,
    c: CheckpointEventView,
    follow: JsonView,
)
    ensures
        ({
            let e = branch::transition_record(record, c, follow);
            &&& e.kind == "branch_transition"@
            &&& width(document_of(e)) == 10
            &&& states(document_of(e), 0, "branch"@, JsonView::Text(record.id))
            &&& states(document_of(e), 1, "from_branch"@, json::text_or_null(record.from))
            &&& states(document_of(e), 2, "frontier_seq"@, JsonView::Unsigned(record.frontier_seq))
            &&& states(document_of(e), 3, "checkpoint_event"@, JsonView::Text(c.id))
            &&& states(document_of(e), 4, "checkpoint_snapshot"@, JsonView::Text(c.snapshot))
            &&& states(document_of(e), 5, "follow"@, follow)
            &&& states(document_of(e), 6, "config_choice"@, branch::choice_json(record.config_choice))
            &&& states(document_of(e), 7, "quiesce"@, branch::quiesce_json(record.quiesce))
            &&& states(document_of(e), 8, "memory_root"@, json::text_or_null(c.memory_root))
            &&& states(document_of(e), 9, "project_memory_root"@, json::text_or_null(c.project_memory_root))
        }),
{
}

/// A config choice is written with both packages, its composition and every
/// layer.
pub proof fn law_choices_are_written_whole(
    c: ConfigChoiceRecordView,
)
    ensures
        ({
            let d = branch::choice_json(c);
            &&& width(d) == 5
            &&& states(d, 0, "mode"@, JsonView::Text(c.mode))
            &&& states(d, 1, "current"@, json::text_or_null(c.current))
            &&& states(d, 2, "historical"@, json::text_or_null(c.historical))
            &&& states(d, 3, "composition"@, json::text_or_null(c.composition))
            &&& states(d, 4, "layers"@, json::text_list(c.layers))
        }),
{
}

/// What was quiesced is written intent by intent, the cancelled ones apart from
/// the ambiguous ones.
pub proof fn law_quiesced_intents_are_written_whole(q: QuiesceRecordView, i: int, x: QuiescedIntentView)
    ensures
        ({
            let d = branch::quiesce_json(q);
            &&& width(d) == 2
            &&& d->Object_0[0].name == "cancelled"@
            &&& d->Object_0[1].name == "ambiguous"@
            &&& d->Object_0[0].value is List && d->Object_0[0].value->List_0.len()
                == q.cancelled.len()
            &&& d->Object_0[1].value is List && d->Object_0[1].value->List_0.len()
                == q.ambiguous.len()
            &&& 0 <= i < q.cancelled.len() ==> d->Object_0[0].value->List_0[i]
                == branch::quiesced_json(q.cancelled[i])
            &&& 0 <= i < q.ambiguous.len() ==> d->Object_0[1].value->List_0[i]
                == branch::quiesced_json(q.ambiguous[i])
        }),
        states(branch::quiesced_json(x), 0, "seq"@, JsonView::Unsigned(x.seq)),
        states(branch::quiesced_json(x), 1, "kind"@, JsonView::Text(x.kind)),
        states(branch::quiesced_json(x), 2, "id"@, JsonView::Text(x.id)),
{
}

/// A changed policy is recorded with the seq from which it holds.
pub proof fn law_changed_policies_are_recorded(
    policy: JsonView,
    at: u64,
)
    ensures
        ({
            let e = branch::follow_record(policy, at);
            &&& e.kind == "memory_follow_changed"@
            &&& width(document_of(e)) == 2
            &&& states(document_of(e), 0, "policy"@, policy)
            &&& states(document_of(e), 1, "at"@, JsonView::Unsigned(at))
        }),
{
}

/// A checkpoint is recorded with its frontier, its snapshot, both memory roots,
/// its composition and its branch.
pub proof fn law_checkpoints_are_recorded_whole(
    label: Option<Seq<char>>,
    seq: u64,
    snapshot: Seq<char>,
    memory_root: Option<Seq<char>>,
    project_memory_root: Option<Seq<char>>,
    composition: Seq<char>,
    on: Seq<char>,
)
    ensures
        ({
            let e = branch::checkpoint_record(
                label,
                seq,
                snapshot,
                memory_root,
                project_memory_root,
                composition,
                on,
            );
            &&& e.kind == "checkpoint_created"@
            &&& width(document_of(e)) == 7
            &&& states(document_of(e), 0, "label"@, json::text_or_null(label))
            &&& states(document_of(e), 1, "frontier_seq"@, JsonView::Unsigned(seq))
            &&& states(document_of(e), 2, "snapshot"@, JsonView::Text(snapshot))
            &&& states(document_of(e), 3, "memory_root"@, json::text_or_null(memory_root))
            &&& states(document_of(e), 4, "project_memory_root"@, json::text_or_null(project_memory_root))
            &&& states(document_of(e), 5, "composition"@, JsonView::Text(composition))
            &&& states(document_of(e), 6, "branch"@, JsonView::Text(on))
        }),
{
}

/// A fork begins with where it comes from, what it was granted, and the config
/// of its top layer.
pub proof fn law_forks_say_where_they_come_from(
    source: Seq<char>,
    seq: u64,
    c: CheckpointEventView,
    follow: JsonView,
    grants: Seq<Seq<char>>,
    layers: Seq<RestoredLayerView>,
    workspaces: Seq<Seq<char>>,
)
    ensures
        ({
            let e = switch::fork_record(source, seq, c, follow, grants, layers, workspaces);
            &&& e.kind == "forked"@
            &&& width(document_of(e)) == 7
            &&& states(document_of(e), 0, "source_session"@, JsonView::Text(source))
            &&& states(document_of(e), 1, "checkpoint_seq"@, JsonView::Unsigned(seq))
            &&& states(document_of(e), 2, "checkpoint_snapshot"@, JsonView::Text(c.snapshot))
            &&& states(document_of(e), 3, "follow"@, follow)
            &&& states(document_of(e), 4, "grants"@, json::text_list(grants))
            &&& states(document_of(e), 5, "config"@, json::text_or_null(
                if layers.len() == 0 {
                    None
                } else {
                    Some(layers[layers.len() - 1].digest)
                },
            ))
            &&& states(document_of(e), 6, "frontier_seq"@, JsonView::Unsigned(seq))
            &&& e.refs == switch::fork_refs(c, layers, workspaces)
        }),
{
}

/// An adoption says which fork it took, up to where, and under which policy,
/// and refers to what it follows.
pub proof fn law_adoptions_say_what_they_took(
    fork: Seq<char>,
    fact: ForkFactView,
    snapshot: Seq<char>,
    follow: branch::MemoryFollowView,
    document: JsonView,
    label: Option<Seq<char>>,
    quiesce: QuiesceRecordView,
)
    ensures
        ({
            let e = switch::adoption_record(fork, fact, snapshot, follow, document, label, quiesce);
            &&& e.kind == "fork_adopted"@
            &&& width(document_of(e)) == 7
            &&& states(document_of(e), 0, "fork_session"@, JsonView::Text(fork))
            &&& states(document_of(e), 1, "fork_seq"@, JsonView::Unsigned(fact.head_seq))
            &&& states(document_of(e), 2, "fork_snapshot"@, JsonView::Text(snapshot))
            &&& states(document_of(e), 3, "follow"@, document)
            &&& states(document_of(e), 4, "label"@, json::text_or_null(label))
            &&& states(document_of(e), 5, "quiesce"@, branch::quiesce_json(quiesce))
            &&& states(document_of(e), 6, "frontier_seq"@, JsonView::Unsigned(fact.frontier_seq))
            &&& e.refs == Seq::<Seq<char>>::empty().push(snapshot) + switch::followed_roots(follow)
            &&& e.refs[0] == snapshot
        }),
{
}

/// A change of the composition is recorded with its epoch, its delta and its
/// scope, as the config's doing, and refers to exactly the given objects.
pub proof fn law_composition_changes_are_recorded_whole(
    epoch: u64,
    delta: JsonView,
    scope: Seq<char>,
    refs: Seq<Seq<char>>,
)
    ensures
        ({
            let e = elements::composition_record(epoch, delta, scope, refs);
            &&& e.kind == "composition_changed"@
            &&& width(document_of(e)) == 4
            &&& states(document_of(e), 0, "epoch"@, JsonView::Unsigned(epoch))
            &&& states(document_of(e), 1, "delta"@, delta)
            &&& states(document_of(e), 2, "scope"@, JsonView::Text(scope))
            &&& states(document_of(e), 3, "initiator"@, JsonView::Text("config"@))
            &&& e.refs == refs
        }),
{
}

/// An activation adds its module and removes nothing; a replacement removes the
/// old generation and adds the new one, each with the keys it holds.
pub proof fn law_deltas_name_what_came_and_went(
    epoch: u64,
    module: Seq<char>,
    old_module: hooks::LiveModuleView,
    old_entries: Seq<EntryView>,
    generation: u64,
    package: Seq<char>,
    entries: Seq<EntryView>,
    scope: Seq<char>,
    composition: Seq<char>,
)
    ensures
        ({
            let e = elements::activation_record(
                epoch,
                module,
                generation,
                package,
                scope,
                composition,
            );
            let delta = document_of(e)->Object_0[1].value;
            let added = delta->Object_0[0].value->List_0;
            &&& states(document_of(e), 0, "epoch"@, JsonView::Unsigned(epoch))
            &&& states(document_of(e), 2, "scope"@, JsonView::Text(scope))
            &&& states(delta, 1, "removed"@, JsonView::List(Seq::empty()))
            &&& delta->Object_0[0].name == "added"@ && added.len() == 1
            &&& width(added[0]) == 3
            &&& states(added[0], 0, "module_id"@, JsonView::Text(module))
            &&& states(added[0], 1, "generation"@, JsonView::Unsigned(generation))
            &&& states(added[0], 2, "package"@, JsonView::Text(package))
            &&& e.refs == seq![package, composition]
        }),
        ({
            let e = elements::replacement_record(
                epoch,
                module,
                old_module,
                old_entries,
                generation,
                package,
                entries,
                composition,
            );
            let delta = document_of(e)->Object_0[1].value;
            let added = delta->Object_0[0].value->List_0;
            let removed = delta->Object_0[1].value->List_0;
            &&& states(document_of(e), 0, "epoch"@, JsonView::Unsigned(epoch))
            &&& states(document_of(e), 2, "scope"@, JsonView::Text("/"@))
            &&& delta->Object_0[0].name == "added"@ && added.len() == 1
            &&& delta->Object_0[1].name == "removed"@ && removed.len() == 1
            &&& states(added[0], 0, "module_id"@, JsonView::Text(module))
            &&& states(added[0], 1, "generation"@, JsonView::Unsigned(generation))
            &&& states(added[0], 2, "package"@, JsonView::Text(package))
            &&& states(added[0], 3, "keys"@, json::text_list(elements::key_texts(entries)))
            &&& states(removed[0], 0, "module_id"@, JsonView::Text(module))
            &&& states(removed[0], 1, "generation"@, JsonView::Unsigned(old_module.generation))
            &&& states(removed[0], 2, "package"@, JsonView::Text(old_module.package))
            &&& states(removed[0], 3, "keys"@, json::text_list(elements::key_texts(old_entries)))
            &&& e.refs == seq![old_module.package, package, composition]
        }),
{
    let a = elements::activation_record(epoch, module, generation, package, scope, composition);
    assert(a.refs =~= seq![package, composition]);
    let b = elements::replacement_record(
        epoch,
        module,
        old_module,
        old_entries,
        generation,
        package,
        entries,
        composition,
    );
    assert(b.refs =~= seq![old_module.package, package, composition]);
}

/// The keys of publications are written as they are displayed, in order.
pub proof fn law_keys_are_written_as_displayed(entries: Seq<EntryView>, i: int)
    requires
        0 <= i < entries.len(),
    ensures
        elements::key_texts(entries).len() == entries.len(),
        elements::key_texts(entries)[i] == services::scope_text(entries[i].key.scope) + "/"@
            + entries[i].key.name,
{
}

/// A fresh state is recorded with its module, its key and the head it leaves.
pub proof fn law_fresh_states_are_recorded(
    module: Seq<char>,
    key: Seq<char>,
    previous: Option<Seq<char>>,
)
    ensures
        ({
            let e = elements::reinitialized(module, key, previous);
            &&& e.kind == "state_reinitialized"@
            &&& width(document_of(e)) == 3
            &&& states(document_of(e), 0, "module_id"@, JsonView::Text(module))
            &&& states(document_of(e), 1, "state_key"@, JsonView::Text(key))
            &&& states(document_of(e), 2, "previous_head"@, json::text_or_null(previous))
        }),
{
}

/// Safe mode is recorded with its reason.
pub proof fn law_safe_mode_is_recorded_with_its_reason(
    reason: Seq<char>,
)
    ensures
        ({
            let e = elements::safe_mode_record(reason);
            &&& e.kind == "safe_mode_activated"@
            &&& width(document_of(e)) == 1
            &&& states(document_of(e), 0, "reason"@, JsonView::Text(reason))
        }),
{
}

/// A bound project is recorded with the memory root it starts from.
pub proof fn law_projects_are_bound_on_record(
    project: Seq<char>,
    memory_root: Seq<char>,
)
    ensures
        ({
            let e = opening::binding(project, memory_root);
            &&& e.kind == "project_bound"@
            &&& width(document_of(e)) == 2
            &&& states(document_of(e), 0, "project_id"@, JsonView::Text(project))
            &&& states(document_of(e), 1, "memory_root"@, JsonView::Text(memory_root))
        }),
{
}

/// A collection is recorded with its report.
pub proof fn law_collections_are_recorded(
    report: JsonView,
)
    ensures
        ({
            let e = gc::run_record(report);
            &&& e.kind == "gc.run"@
            &&& width(document_of(e)) == 1
            &&& states(document_of(e), 0, "report"@, report)
        }),
{
}

/// A denied turn names the module and the package that denied it, and the
/// decision.
pub proof fn law_denied_turns_name_their_denier(
    run: Seq<char>,
    denier: Option<HookBindingView>,
    decision_digest: Seq<char>,
)
    ensures
        ({
            let e = cognition::turn_denial(run, denier, decision_digest);
            &&& e.kind == "turn_denied"@
            &&& width(document_of(e)) == 5
            &&& states(document_of(e), 0, "run"@, JsonView::Text(run))
            &&& states(document_of(e), 1, "hook"@, JsonView::Text("on_turn_start"@))
            &&& states(document_of(e), 2, "module_id"@, match denier {
                Some(b) => JsonView::Text(b.module_id),
                None => JsonView::Null,
            })
            &&& states(document_of(e), 3, "package_digest"@, match denier {
                Some(b) => JsonView::Text(b.package_digest),
                None => JsonView::Null,
            })
            &&& states(document_of(e), 4, "decision_digest"@, JsonView::Text(decision_digest))
        }),
{
}

/// An annotation is recorded with its run, its key and its value.
pub proof fn law_annotations_are_recorded_whole(
    run: Seq<char>,
    a: AnnotationView,
)
    ensures
        ({
            let e = cognition::annotation_record(run, a);
            &&& e.kind == "hook_annotation"@
            &&& width(document_of(e)) == 4
            &&& states(document_of(e), 0, "run"@, JsonView::Text(run))
            &&& states(document_of(e), 1, "hook"@, JsonView::Text("on_turn_start"@))
            &&& states(document_of(e), 2, "key"@, JsonView::Text(a.key))
            &&& states(document_of(e), 3, "value"@, a.value)
        }),
{
}

/// A hook on a turn sees its kind and the run.
pub proof fn law_turn_hooks_see_their_run(
    run: Seq<char>,
)
    ensures
        ({
            let d = cognition::turn_context(run);
            &&& width(d) == 2
            &&& states(d, 0, "hook"@, JsonView::Text("on_turn_start"@))
            &&& states(d, 1, "run"@, JsonView::Text(run))
        }),
{
}

/// A hook on a tool call sees the tool and its arguments.
pub proof fn law_tool_hooks_see_the_call(
    intent: ToolIntentView,
)
    ensures
        ({
            let d = tool_call::hook_context(intent);
            &&& width(d) == 3
            &&& states(d, 0, "hook"@, JsonView::Text("on_tool_intent"@))
            &&& states(d, 1, "tool"@, JsonView::Text(intent.tool))
            &&& states(d, 2, "args"@, intent.args)
        }),
{
}

/// A decision is written with its name, and a denial with its reason.
pub proof fn law_decisions_are_written_whole(reason: Seq<char>)
    ensures
        width(hooks::decision_json(DecisionView::Continue)) == 1,
        states(
            hooks::decision_json(DecisionView::Continue),
            0,
            "decision"@,
            JsonView::Text("continue"@),
        ),
        width(hooks::decision_json(DecisionView::Deny { reason })) == 2,
        states(
            hooks::decision_json(DecisionView::Deny { reason }),
            0,
            "decision"@,
            JsonView::Text("deny"@),
        ),
        states(
            hooks::decision_json(DecisionView::Deny { reason }),
            1,
            "reason"@,
            JsonView::Text(reason),
        ),
{
}

/// A fault is recorded with everything that tells its hook, its class and how
/// often the hook has faulted.
pub proof fn law_faults_are_recorded_whole(
    f: HookFaultView,
)
    ensures
        ({
            let e = hooks::fault_record(f);
            &&& e.kind == "module_fault"@
            &&& width(document_of(e)) == 7
            &&& states(document_of(e), 0, "module_id"@, JsonView::Text(f.binding.module_id))
            &&& states(document_of(e), 1, "package_digest"@, JsonView::Text(f.binding.package_digest))
            &&& states(document_of(e), 2, "generation"@, JsonView::Unsigned(f.binding.generation))
            &&& states(document_of(e), 3, "hook"@, JsonView::Text(
                match f.binding.hook {
                    HookKind::OnTurnStart => "on_turn_start"@,
                    HookKind::OnToolIntent => "on_tool_intent"@,
                },
            ))
            &&& states(document_of(e), 4, "entry"@, JsonView::Text(f.binding.entry))
            &&& states(document_of(e), 5, "fault_class"@, JsonView::Text(
                match f.error {
                    HookError::Trap => "trap"@,
                    HookError::Timeout => "timeout"@,
                    HookError::Invalid => "invalid"@,
                    HookError::Gone => "gone"@,
                },
            ))
            &&& states(document_of(e), 6, "count"@, JsonView::Unsigned(f.binding.faults))
        }),
{
}

/// A boundary is recorded with its reason, whether it matters to a replay, and
/// its kind.
pub proof fn law_boundaries_are_recorded_whole(
    f: BoundaryFactView,
)
    ensures
        ({
            let e = tool_call::boundary_record(f);
            &&& e.kind == "retention_boundary"@
            &&& width(document_of(e)) == 3
            &&& states(document_of(e), 0, "reason"@, f.reason)
            &&& states(document_of(e), 1, "replay_relevant"@, JsonView::Bool(f.replay_relevant))
            &&& states(document_of(e), 2, "kind"@, JsonView::Text(
                match f.kind {
                    BoundaryKind::NonResumable => "non_resumable"@,
                    BoundaryKind::Rejected => "rejected"@,
                },
            ))
        }),
{
}

/// An intent without an outcome is classified as ambiguous where the world it was
/// committed against is known, and as interrupted where it is not.
pub proof fn law_classifications_are_recorded_whole(
    intent: PendingIntentView,
)
    ensures
        ({
            let e = intents::classification(intent);
            &&& e.kind == "intent_classified"@
            &&& width(document_of(e)) == 5
            &&& states(document_of(e), 0, "call_id"@, json::text_or_null(intent.call_id))
            &&& states(document_of(e), 1, "tool"@, JsonView::Text(
                match intent.tool {
                    Some(t) => t,
                    None => ""@,
                },
            ))
            &&& states(document_of(e), 2, "classification"@, JsonView::Text(
                if intent.origin_snapshot is Some {
                    "ambiguous"@
                } else {
                    "interrupted"@
                },
            ))
            &&& states(document_of(e), 3, "reason"@, JsonView::Text("committed intent without outcome (B-05)"@))
            &&& states(document_of(e), 4, "origin_snapshot"@, json::text_or_null(intent.origin_snapshot))
        }),
{
}

/// A backlink names its transition and its scope.
pub proof fn law_backlinks_name_their_transition(
    id: Seq<char>,
    scope: JsonView,
)
    ensures
        ({
            let e = transition::backlink(id, scope);
            &&& e.kind == "memory_transition_backlink"@
            &&& width(document_of(e)) == 2
            &&& states(document_of(e), 0, "transition_id"@, JsonView::Text(id))
            &&& states(document_of(e), 1, "scope"@, scope)
        }),
{
}

/// A deferral names its claim.
pub proof fn law_deferrals_name_their_claim(
    claim: Seq<char>,
)
    ensures
        ({
            let e = transition::deferral(claim);
            &&& e.kind == "promotion_deferred"@
            &&& width(document_of(e)) == 2
            &&& states(document_of(e), 0, "claim_digest"@, JsonView::Text(claim))
            &&& states(document_of(e), 1, "reason"@, JsonView::Text("CAS rebase exhausted (3 attempts)"@))
        }),
{
}

/// The objects that a deferred transition leaves behind are listed.
pub proof fn law_orphans_are_listed(
    scope: JsonView,
    digests: Seq<Seq<char>>,
)
    ensures
        ({
            let e = transition::orphans(scope, digests);
            &&& e.kind == "memory_orphans_expected"@
            &&& width(document_of(e)) == 2
            &&& states(document_of(e), 0, "scope"@, scope)
            &&& states(document_of(e), 1, "digests"@, json::text_list(digests))
        }),
{
}

/// A proposal is recorded with its claim, what it says, who owns it and the
/// intent it came from.
pub proof fn law_proposals_are_recorded_whole(
    p: ProposeFlowView,
)
    ensures
        ({
            let e = memory_tools::proposal_record(p);
            &&& e.kind == "memory_proposal"@
            &&& width(document_of(e)) == 7
            &&& states(document_of(e), 0, "claim_digest"@, JsonView::Text(p.claim_digest))
            &&& states(document_of(e), 1, "claim_id"@, JsonView::Text(p.claim_id))
            &&& states(document_of(e), 2, "kind"@, JsonView::Text(p.proposal.kind))
            &&& states(document_of(e), 3, "content"@, JsonView::Text(p.proposal.content))
            &&& states(document_of(e), 4, "sensitivity"@, JsonView::Text(p.proposal.sensitivity))
            &&& states(document_of(e), 5, "owner"@, p.owner)
            &&& states(document_of(e), 6, "intent_event"@, json::number_or_null(p.intent.intent_event))
        }),
{
}

/// A review is recorded under its decision, with the claim, the reason and who
/// decided.
pub proof fn law_reviews_are_recorded_whole(
    request: ReviewRequestView,
    kind: Seq<char>,
    digest: Seq<char>,
    principal: JsonView,
)
    ensures
        ({
            let e = memory_tools::review_record(request, kind, digest, principal);
            &&& e.kind == kind
            &&& width(document_of(e)) == 4
            &&& states(document_of(e), 0, "claim_id"@, JsonView::Text(request.claim_id))
            &&& states(document_of(e), 1, "claim_digest"@, JsonView::Text(digest))
            &&& states(document_of(e), 2, "reason"@, JsonView::Text(request.reason))
            &&& states(document_of(e), 3, "decision_principal"@, principal)
        }),
{
}

/// An approved claim's transition says which claim, on whose approval and from
/// which root; the one of its supersession also says which edge.
pub proof fn law_approvals_are_recorded_with_their_root(
    p: ProposeFlowView,
    edge: SupersedeEdgeView,
    approval: Seq<char>,
    head: Option<Seq<char>>,
)
    ensures
        ({
            let d = memory_tools::claim_request(p, approval, head).origin_payload;
            &&& width(d) == 3
            &&& states(d, 0, "claim_digest"@, JsonView::Text(p.claim_digest))
            &&& states(d, 1, "decision_digest"@, JsonView::Text(approval))
            &&& states(d, 2, "expected_root"@, json::text_or_null(head))
        }),
        ({
            let d = memory_tools::edge_request(p, edge, approval, head).origin_payload;
            &&& width(d) == 4
            &&& states(d, 0, "claim_digest"@, JsonView::Text(p.claim_digest))
            &&& states(d, 1, "edge_digest"@, JsonView::Text(edge.edge))
            &&& states(d, 2, "decision_digest"@, JsonView::Text(approval))
            &&& states(d, 3, "expected_root"@, json::text_or_null(head))
        }),
{
}

/// A proposer learns the claim and that it is proposed.
pub proof fn law_proposers_learn_their_claim(
    p: ProposeFlowView,
)
    ensures
        ({
            let d = memory_tools::proposed_result(p);
            &&& width(d) == 3
            &&& states(d, 0, "claim_id"@, JsonView::Text(p.claim_id))
            &&& states(d, 1, "claim_digest"@, JsonView::Text(p.claim_digest))
            &&& states(d, 2, "status"@, JsonView::Text("proposed"@))
        }),
{
}

/// Where the claim was decided on, the proposer learns how, and by which
/// transition.
pub proof fn law_proposers_learn_what_was_decided(
    p: ProposeFlowView,
)
    ensures
        ({
            let d = memory_tools::decided_result(p);
            &&& width(d) == 4
            &&& states(d, 0, "claim_id"@, JsonView::Text(p.claim_id))
            &&& states(d, 1, "claim_digest"@, JsonView::Text(p.claim_digest))
            &&& states(d, 2, "status"@, JsonView::Text(p.status))
            &&& states(d, 3, "transition_id"@, json::text_or_null(p.transition))
        }),
{
}

/// Whoever decides on a claim learns which decision was recorded.
pub proof fn law_decisions_are_told(
    request: ReviewRequestView,
    digest: Seq<char>,
)
    ensures
        ({
            let d = memory_tools::recorded_result(request, digest);
            &&& width(d) == 4
            &&& states(d, 0, "claim_id"@, JsonView::Text(request.claim_id))
            &&& states(d, 1, "claim_digest"@, JsonView::Text(digest))
            &&& states(d, 2, "decision"@, JsonView::Text(request.decision))
            &&& states(d, 3, "status"@, JsonView::Text(request.decision))
        }),
{
}

/// An approver learns what became of the approval.
pub proof fn law_approvers_learn_their_transition(
    request: ReviewRequestView,
    digest: Seq<char>,
    status: Seq<char>,
    id: Option<Seq<char>>,
)
    ensures
        ({
            let d = memory_tools::approved_result(request, digest, status, id);
            &&& width(d) == 5
            &&& states(d, 0, "claim_id"@, JsonView::Text(request.claim_id))
            &&& states(d, 1, "claim_digest"@, JsonView::Text(digest))
            &&& states(d, 2, "decision"@, JsonView::Text(request.decision))
            &&& states(d, 3, "status"@, JsonView::Text(status))
            &&& states(d, 4, "transition_id"@, json::text_or_null(id))
        }),
{
}

/// A promotion names the new claim and the one it comes from.
pub proof fn law_promoters_learn_both_claims(
    p: PromotionView,
    claim_id: Seq<char>,
    claim: Seq<char>,
    status: Seq<char>,
    id: Option<Seq<char>>,
)
    ensures
        ({
            let d = memory_tools::promoted_result(p, claim_id, claim, status, id);
            &&& width(d) == 6
            &&& states(d, 0, "claim_id"@, JsonView::Text(claim_id))
            &&& states(d, 1, "claim_digest"@, JsonView::Text(claim))
            &&& states(d, 2, "source_claim_id"@, JsonView::Text(p.source.claim.claim_id))
            &&& states(d, 3, "source_digest"@, JsonView::Text(p.source.digest))
            &&& states(d, 4, "status"@, JsonView::Text(status))
            &&& states(d, 5, "transition_id"@, json::text_or_null(id))
        }),
{
}

/// A parent learns how its child ended and what it used.
pub proof fn law_parents_learn_what_was_used(
    run: Seq<char>,
    outcome: Seq<char>,
    tokens: u64,
    calls: u64,
)
    ensures
        ({
            let d = memory_tools::child_result(run, outcome, tokens, calls);
            &&& width(d) == 3
            &&& states(d, 0, "run_id"@, JsonView::Text(run))
            &&& states(d, 1, "outcome"@, JsonView::Text(outcome))
            &&& d->Object_0[2].name == "usage"@
            &&& width(d->Object_0[2].value) == 2
            &&& states(d->Object_0[2].value, 0, "tokens"@, JsonView::Unsigned(tokens))
            &&& states(d->Object_0[2].value, 1, "tools"@, JsonView::Unsigned(calls))
        }),
{
}

/// A search shows every claim and entity that it found, in order, and how it
/// searched.
pub proof fn law_searches_show_what_they_found(r: SearchResultView, i: int, j: int)
    requires
        0 <= i < r.claims.len(),
        0 <= j < r.query_entities.len(),
    ensures
        ({
            let d = memory_tools::query_result(r);
            let claims = d->Object_0[0].value;
            let entities = d->Object_0[1].value;
            &&& width(d) == 4
            &&& d->Object_0[0].name == "claims"@
            &&& claims is List && claims->List_0.len() == r.claims.len()
            &&& claims->List_0[i] == memory_tools::found_json(r.claims[i])
            &&& d->Object_0[1].name == "query_entities"@
            &&& entities is List && entities->List_0.len() == r.query_entities.len()
            &&& states(entities->List_0[j], 0, "key"@, JsonView::Text(r.query_entities[j].key))
            &&& states(entities->List_0[j], 1, "kind"@, JsonView::Text(r.query_entities[j].kind))
            &&& states(d, 2, "fts_used"@, r.fts_used)
            &&& states(d, 3, "expanded"@, r.expanded)
        }),
{
}

/// A found claim is shown with its digest, what it says, how it stands, every
/// contradiction to it and the events it comes from.
pub proof fn law_found_claims_are_shown_whole(c: FoundClaimView, i: int, j: int)
    ensures
        ({
            let d = memory_tools::found_json(c);
            let against = d->Object_0[6].value;
            let sources = d->Object_0[7].value;
            &&& width(d) == 8
            &&& states(d, 0, "digest"@, JsonView::Text(c.digest))
            &&& states(d, 1, "text"@, JsonView::Text(c.text))
            &&& states(d, 2, "kind"@, JsonView::Text(c.kind))
            &&& states(d, 3, "sensitivity"@, JsonView::Text(c.sensitivity))
            &&& states(d, 4, "status"@, c.status)
            &&& states(d, 5, "score"@, c.score)
            &&& d->Object_0[6].name == "contradictions"@
            &&& against is List && against->List_0.len() == c.contradictions.len()
            &&& 0 <= i < c.contradictions.len() ==> {
                let x = against->List_0[i];
                &&& states(x, 0, "digest"@, JsonView::Text(c.contradictions[i].digest))
                &&& states(x, 1, "text"@, JsonView::Text(c.contradictions[i].text))
                &&& states(x, 2, "supersedes"@, JsonView::Bool(c.contradictions[i].supersedes))
            }
            &&& d->Object_0[7].name == "source_events"@
            &&& sources is List && sources->List_0.len() == c.source_events.len()
            &&& 0 <= j < c.source_events.len() ==> sources->List_0[j] == JsonView::Unsigned(
                c.source_events[j],
            )
        }),
{
}

/// The document that a contribution's kind is encoded with, under the name of
/// the kind.
pub open spec fn encoded_as(d: JsonView, name: Seq<char>) -> JsonView {
    if d is Object && d->Object_0.len() == 1 && d->Object_0[0].name == name {
        d->Object_0[0].value
    } else {
        JsonView::Null
    }
}

/// A contribution is encoded with its scope, part by part, and its kind.
pub proof fn law_contributions_are_encoded_whole(c: ContributionView, i: int)
    ensures
        ({
            let d = contribution::contribution_json(c);
            &&& width(d) == 2
            &&& d->Object_0[0].name == "scope"@ && d->Object_0[0].value is List
            &&& d->Object_0[0].value->List_0.len() == c.scope.len()
            &&& 0 <= i < c.scope.len() ==> d->Object_0[0].value->List_0[i] == JsonView::Text(
                c.scope[i],
            )
            &&& states(d, 1, "kind"@, contribution::kind_json(c.kind))
        }),
{
}

/// A kind is encoded under its name with everything it holds.
pub proof fn law_kinds_are_encoded_whole(k: KindView)
    ensures
        k matches KindView::Command { name, handler } ==> {
            let d = encoded_as(contribution::kind_json(k), "Command"@);
            &&& width(d) == 2
            &&& states(d, 0, "name"@, JsonView::Text(name))
            &&& states(d, 1, "handler"@, JsonView::Text(handler))
        },
        k matches KindView::Tool { name, manifest, handler } ==> {
            let d = encoded_as(contribution::kind_json(k), "Tool"@);
            &&& width(d) == 3
            &&& states(d, 0, "name"@, JsonView::Text(name))
            &&& states(d, 1, "manifest"@, manifest)
            &&& states(d, 2, "handler"@, JsonView::Text(handler))
        },
        k matches KindView::Keymap { key, context, action, origin, owner } ==> {
            let d = encoded_as(contribution::kind_json(k), "Keymap"@);
            &&& width(d) == 5
            &&& states(d, 0, "key"@, JsonView::Text(key))
            &&& states(d, 1, "context"@, contribution::context_json(context))
            &&& states(d, 2, "action"@, JsonView::Text(action))
            &&& states(d, 3, "origin"@, contribution::origin_json(origin))
            &&& states(d, 4, "owner"@, json::text_or_null(owner))
        },
        k matches KindView::Theme { name, overlay } ==> {
            let d = encoded_as(contribution::kind_json(k), "Theme"@);
            &&& width(d) == 2
            &&& states(d, 0, "name"@, JsonView::Text(name))
            &&& states(d, 1, "overlay"@, overlay)
        },
        k matches KindView::ProjectionStage { slot, ordering, handler } ==> {
            let d = encoded_as(contribution::kind_json(k), "ProjectionStage"@);
            &&& width(d) == 3
            &&& states(d, 0, "slot"@, JsonView::Text(slot))
            &&& states(d, 1, "ordering"@, JsonView::Unsigned(ordering as u64))
            &&& states(d, 2, "handler"@, JsonView::Text(handler))
        },
        k matches KindView::UiMount { name, component, slot } ==> {
            let d = encoded_as(contribution::kind_json(k), "UiMount"@);
            &&& width(d) == 3
            &&& states(d, 0, "name"@, JsonView::Text(name))
            &&& states(d, 1, "component"@, JsonView::Text(component))
            &&& states(d, 2, "slot"@, json::text_or_null(slot))
        },
        k matches KindView::Guard { name, predicate, monotonic } ==> {
            let d = encoded_as(contribution::kind_json(k), "Guard"@);
            &&& width(d) == 3
            &&& states(d, 0, "name"@, JsonView::Text(name))
            &&& states(d, 1, "predicate"@, JsonView::Text(predicate))
            &&& states(d, 2, "monotonic"@, JsonView::Bool(monotonic))
        },
        k matches KindView::Hook { name, hook } ==> {
            let d = encoded_as(contribution::kind_json(k), "Hook"@);
            &&& width(d) == 2
            &&& states(d, 0, "name"@, JsonView::Text(name))
            &&& states(d, 1, "hook"@, JsonView::Text(
                match hook {
                    HookKind::OnTurnStart => "on_turn_start"@,
                    HookKind::OnToolIntent => "on_tool_intent"@,
                },
            ))
        },
        k matches KindView::Settings(s) ==> {
            let d = encoded_as(contribution::kind_json(k), "Settings"@);
            &&& width(d) == 2
            &&& states(d, 0, "provider"@, contribution::provider_settings_json(s.provider))
            &&& states(d, 1, "approval"@, contribution::approval_json(s.approval))
        },
        k matches KindView::Service { key, provider, deps } ==> {
            let d = encoded_as(contribution::kind_json(k), "Service"@);
            &&& width(d) == 3
            &&& states(d, 0, "key"@, contribution::key_json(key))
            &&& states(d, 1, "provider"@, contribution::provider_json(provider))
            &&& d->Object_0[2].name == "deps"@ && d->Object_0[2].value is List
            &&& d->Object_0[2].value->List_0.len() == deps.len()
            &&& forall|i: int|
                0 <= i < deps.len() ==> d->Object_0[2].value->List_0[i]
                    == contribution::dependency_json(#[trigger] deps[i])
        },
{
}

/// Keys, providers, dependencies and settings are encoded with every part of
/// them.
pub proof fn law_parts_are_encoded_whole(
    key: KeyView,
    p: ProviderView,
    d: DependencyView,
    s: ProviderSettingsView,
    a: ApprovalSettings,
    name: Seq<char>,
    account: Seq<char>,
)
    ensures
        states(contribution::key_json(key), 0, "scope"@, json::text_list(key.scope)),
        states(contribution::key_json(key), 1, "name"@, JsonView::Text(key.name)),
        states(contribution::provider_json(p), 0, "module_id"@, JsonView::Text(p.module_id)),
        states(contribution::provider_json(p), 1, "generation"@, JsonView::Unsigned(p.generation)),
        states(
            contribution::provider_json(p),
            2,
            "contract"@,
            contribution::contract_json(p.contract),
        ),
        states(contribution::contract_json(p.contract), 0, "name"@, JsonView::Text(p.contract.name)),
        states(
            contribution::contract_json(p.contract),
            1,
            "version"@,
            JsonView::Unsigned(p.contract.version as u64),
        ),
        states(contribution::dependency_json(d), 0, "key"@, contribution::key_json(d.key)),
        states(
            contribution::dependency_json(d),
            1,
            "required_version"@,
            JsonView::Unsigned(d.required_version as u64),
        ),
        contribution::provider_settings_json(None) == JsonView::Null,
        contribution::approval_json(None) == JsonView::Null,
        ({
            let x = contribution::provider_settings_json(Some(s));
            &&& width(x) == 5
            &&& states(x, 0, "base_url"@, json::text_or_null(s.base_url))
            &&& states(x, 1, "model"@, json::text_or_null(s.model))
            &&& states(x, 2, "protocol"@, json::text_or_null(s.protocol))
            &&& states(x, 3, "key"@, contribution::reference_json(s.key))
            &&& states(
                x,
                4,
                "fake"@,
                match s.fake {
                    Some(b) => JsonView::Bool(b),
                    None => JsonView::Null,
                },
            )
        }),
        ({
            let x = contribution::approval_json(Some(a));
            &&& width(x) == 2
            &&& states(
                x,
                0,
                "auto_approve"@,
                match a.auto_approve {
                    Some(b) => JsonView::Bool(b),
                    None => JsonView::Null,
                },
            )
            &&& states(
                x,
                1,
                "yolo"@,
                match a.yolo {
                    Some(b) => JsonView::Bool(b),
                    None => JsonView::Null,
                },
            )
        }),
        contribution::reference_json(None) == JsonView::Null,
        states(
            encoded_as(
                contribution::reference_json(Some(KeyReferenceView::Env { name })),
                "Env"@,
            ),
            0,
            "name"@,
            JsonView::Text(name),
        ),
        ({
            let x = encoded_as(
                contribution::reference_json(
                    Some(KeyReferenceView::Keychain { service: name, account }),
                ),
                "Keychain"@,
            );
            &&& states(x, 0, "service"@, JsonView::Text(name))
            &&& states(x, 1, "account"@, JsonView::Text(account))
        }),
        contribution::context_json(ContextPredicate::Always) == JsonView::Text("always"@),
        contribution::context_json(ContextPredicate::Modal) == JsonView::Text("modal"@),
        contribution::context_json(ContextPredicate::Overlay) == JsonView::Text("overlay"@),
        contribution::origin_json(KeymapOrigin::Builtin) == JsonView::Text("builtin"@),
        contribution::origin_json(KeymapOrigin::Plugin) == JsonView::Text("plugin"@),
        contribution::origin_json(KeymapOrigin::UserConfig) == JsonView::Text("user_config"@),
{
}

} // verus!
