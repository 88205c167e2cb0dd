//! What the log gives back of what was committed to it.
use vstd::prelude::*;
use vstd::string::*;
use crate::branch;
use crate::branch::{
    BranchRecordView, CheckpointEventView, CheckpointRefView, ConfigLayerAtView,
};
use crate::elements;
use crate::elements::ConfigLayerView;
use crate::event;
use crate::event::{CodecView, LogRecordView};
use crate::hooks::LiveModuleView;
use crate::json;
use crate::json::{FieldView, JsonView};
use crate::memory;
use crate::memory_tools;
use crate::memory_tools::ProposeFlowView;
use crate::opening;
use crate::package::PackageManifestView;
use crate::recovery;
use crate::recovery::BranchLine;
use crate::services::EntryView;
use crate::session_error::SessionErrorView;
use crate::switch;
use crate::switch::{ForkFactView, RestoredLayerView};
use crate::value;

verus! {

broadcast use value::group_views;

/// The host reads the text of a digest as that digest.
pub open spec fn reads_digest(codec: CodecView, d: Seq<char>) -> bool {
    event::digest_named(codec, d) == Some(d)
}

/// The host reads the text of an identity as that identity.
pub open spec fn reads_id(codec: CodecView, id: Seq<char>) -> bool {
    event::id_named(codec, id) == Some(id)
}

/// A field is found by its name where no field before it has that name.
proof fn lemma_found(fields: Seq<FieldView>, k: int)
    requires
        0 <= k < fields.len(),
        forall|i: int| 0 <= i < k ==> (#[trigger] fields[i]).name != fields[k].name,
    ensures
        json::lookup(fields, fields[k].name) == Some(fields[k].value),
    decreases k,
{
    if k > 0 {
        assert(fields[0].name != fields[k].name);
        let rest = fields.drop_first();
        assert forall|i: int| 0 <= i < k - 1 implies (#[trigger] rest[i]).name
            != rest[k - 1].name by {
            assert(rest[i] == fields[i + 1]);
        }
        lemma_found(rest, k - 1);
    }
}

// ---------- checkpoints ----------

proof fn lemma_checkpoint_members(
    label: Option<Seq<char>>,
    seq: u64,
    snapshot: Seq<char>,
    memory_root: Option<Seq<char>>,
    project_memory_root: Option<Seq<char>>,
    composition: Seq<char>,
    in_branch: Seq<char>,
    d: JsonView,
)
    requires
        branch::checkpoint_record(
            label,
            seq,
            snapshot,
            memory_root,
            project_memory_root,
            composition,
            in_branch,
        ).payload == event::PayloadView::Document(d),
    ensures
        json::member(d, "frontier_seq"@) == Some(JsonView::Unsigned(seq)),
        json::member(d, "snapshot"@) == Some(JsonView::Text(snapshot)),
        json::member(d, "memory_root"@) == Some(json::text_or_null(memory_root)),
        json::member(d, "project_memory_root"@) == Some(
            json::text_or_null(project_memory_root),
        ),
{
    reveal_strlit("label");
    reveal_strlit("frontier_seq");
    reveal_strlit("snapshot");
    reveal_strlit("memory_root");
    reveal_strlit("project_memory_root");
    assert("label"@.len() == 5 && "frontier_seq"@.len() == 12 && "snapshot"@.len() == 8);
    assert("memory_root"@.len() == 11 && "project_memory_root"@.len() == 19);
    let a = json::fv("label"@, json::text_or_null(label));
    let b = json::fv("frontier_seq"@, JsonView::Unsigned(seq));
    let c = json::fv("snapshot"@, JsonView::Text(snapshot));
    let e = json::fv("memory_root"@, json::text_or_null(memory_root));
    let f = json::fv("project_memory_root"@, json::text_or_null(project_memory_root));
    let g = json::fv("composition"@, JsonView::Text(composition));
    let h = json::fv("branch"@, JsonView::Text(in_branch));
    let all = json::fields7(a, b, c, e, f, g, h);
    assert(all[0] == a && all[1] == b && all[2] == c && all[3] == e && all[4] == f);
    lemma_found(all, 1);
    lemma_found(all, 2);
    lemma_found(all, 3);
    lemma_found(all, 4);
}

/// A committed checkpoint is read back as it was made: its snapshot and the
/// memory roots that it pins.
pub proof fn law_checkpoints_are_read_back(
    log: Seq<LogRecordView>,
    r: LogRecordView,
    label: Option<Seq<char>>,
    c: CheckpointEventView,
    composition: Seq<char>,
    in_branch: Seq<char>,
    session: Seq<char>,
    next_seq: u64,
    codec: CodecView,
)
    requires
        opening::records(
            r,
            branch::checkpoint_record(
                label,
                r.seq,
                c.snapshot,
                c.memory_root,
                c.project_memory_root,
                composition,
                in_branch,
            ),
        ),
        branch::record_at(log, r.seq) == Some(r),
        0 < r.seq < next_seq,
        c.id == r.id,
        reads_digest(codec, c.snapshot),
        c.memory_root matches Some(d) ==> reads_digest(codec, d),
        c.project_memory_root matches Some(d) ==> reads_digest(codec, d),
    ensures
        branch::checkpoint_event(
            CheckpointRefView { session_id: session, seq: r.seq },
            session,
            next_seq,
            log,
            codec,
        ) == Ok::<CheckpointEventView, SessionErrorView>(c),
{
    lemma_checkpoint_members(
        label,
        r.seq,
        c.snapshot,
        c.memory_root,
        c.project_memory_root,
        composition,
        in_branch,
        r.payload,
    );
}

// ---------- branches ----------

/// The host reads a transition's payload as the record that it was made of.
pub open spec fn reads_branch(x: BranchLine, record: BranchRecordView) -> bool {
    &&& x.decoded matches Ok(r) && r@.kind == "branch_transition"@ && r@.seq
        == record.transition_seq
    &&& x.wire matches Ok(w) && recovery::branch_of(record.transition_seq, w) == record
}

/// A committed transition is recovered with the rest of the branches, and is
/// the branch that the session reopens on.
pub proof fn law_branches_survive_recovery(
    lines: Seq<BranchLine>,
    x: BranchLine,
    records: Seq<BranchRecordView>,
    record: BranchRecordView,
    fresh: Seq<char>,
)
    requires
        recovery::branches(lines) == Ok::<Seq<BranchRecordView>, SessionErrorView>(records),
        reads_branch(x, record),
    ensures
        recovery::branches(lines.push(x)) == Ok::<Seq<BranchRecordView>, SessionErrorView>(
            records.push(record),
        ),
        opening::branch_in(records.push(record), fresh) == record.id,
{
    assert(lines.push(x).drop_last() =~= lines);
    assert(recovery::branch_kinds()[0] == "branch_transition"@);
}

// ---------- forks ----------

proof fn lemma_fork_members(
    source: Seq<char>,
    seq: u64,
    c: CheckpointEventView,
    follow: JsonView,
    grants: Seq<Seq<char>>,
    layers: Seq<RestoredLayerView>,
    workspaces: Seq<Seq<char>>,
    d: JsonView,
)
    requires
        switch::fork_record(source, seq, c, follow, grants, layers, workspaces).payload
            == event::PayloadView::Document(d),
    ensures
        json::member(d, "source_session"@) == Some(JsonView::Text(source)),
        json::member(d, "checkpoint_seq"@) == Some(JsonView::Unsigned(seq)),
{
    reveal_strlit("source_session");
    reveal_strlit("checkpoint_seq");
    assert("source_session"@[0] == 's' && "checkpoint_seq"@[0] == 'c');
    let a = json::fv("source_session"@, JsonView::Text(source));
    let b = json::fv("checkpoint_seq"@, JsonView::Unsigned(seq));
    let all = json::fields7(
        a,
        b,
        json::fv("checkpoint_snapshot"@, JsonView::Text(c.snapshot)),
        json::fv("follow"@, follow),
        json::fv("grants"@, json::text_list(grants)),
        json::fv("config"@, json::text_or_null(switch::restored_top(layers))),
        json::fv("frontier_seq"@, JsonView::Unsigned(seq)),
    );
    assert(all[0] == a && all[1] == b);
    lemma_found(all, 0);
    lemma_found(all, 1);
}

/// A fork that has gone on can be adopted by the session that it was forked
/// from, at the checkpoint that it was forked at.
pub proof fn law_forks_are_known_by_their_source(
    log: Seq<LogRecordView>,
    r: LogRecordView,
    next_seq: u64,
    fork: Seq<char>,
    source: Seq<char>,
    seq: u64,
    c: CheckpointEventView,
    follow: JsonView,
    grants: Seq<Seq<char>>,
    layers: Seq<RestoredLayerView>,
    workspaces: Seq<Seq<char>>,
    codec: CodecView,
)
    requires
        switch::first_fork(log) == Some(r),
        opening::records(
            r,
            switch::fork_record(source, seq, c, follow, grants, layers, workspaces),
        ),
        r.seq < next_seq - 1,
        reads_id(codec, source),
    ensures
        switch::fork_fact(log, next_seq, fork, source, codec) == Ok::<
            ForkFactView,
            SessionErrorView,
        >(
            ForkFactView {
                forked_seq: r.seq,
                frontier_seq: seq,
                head_seq: (next_seq - 1) as u64,
            },
        ),
{
    lemma_fork_members(source, seq, c, follow, grants, layers, workspaces, r.payload);
}

// ---------- projects ----------

/// The project that a fresh session binds is the one that its log is recovered
/// with.
pub proof fn law_bound_projects_are_recovered(
    log: Seq<LogRecordView>,
    r: LogRecordView,
    project: Seq<char>,
    memory_root: Seq<char>,
    codec: CodecView,
)
    requires
        recovery::bound_project(log, codec) is None,
        opening::records(r, opening::binding(project, memory_root)),
        reads_id(codec, project),
    ensures
        recovery::bound_project(log.push(r), codec) == Some(project),
    decreases log.len(),
{
    if log.len() == 0 {
        reveal_strlit("project_id");
        let a = json::fv("project_id"@, JsonView::Text(project));
        let all = json::fields2(a, json::fv("memory_root"@, JsonView::Text(memory_root)));
        assert(all[0] == a);
        lemma_found(all, 0);
        assert(log.push(r)[0] == r);
    } else {
        assert(log.push(r)[0] == log[0]);
        assert(log.push(r).drop_first() =~= log.drop_first().push(r));
        law_bound_projects_are_recovered(log.drop_first(), r, project, memory_root, codec);
    }
}

// ---------- proposals ----------

/// A committed proposal is found again by its claim, until a later one of the
/// same claim.
pub proof fn law_proposals_are_found_again(
    log: Seq<LogRecordView>,
    r: LogRecordView,
    p: ProposeFlowView,
    codec: CodecView,
)
    requires
        opening::records(r, memory_tools::proposal_record(p)),
        r.resolved == r.payload,
        reads_id(codec, p.claim_id),
        reads_digest(codec, p.claim_digest),
    ensures
        memory::proposed(log.push(r), codec, p.claim_id) == Some(p.claim_digest),
{
    reveal_strlit("claim_digest");
    reveal_strlit("claim_id");
    assert("claim_digest"@.len() == 12 && "claim_id"@.len() == 8);
    let a = json::fv("claim_digest"@, JsonView::Text(p.claim_digest));
    let b = json::fv("claim_id"@, JsonView::Text(p.claim_id));
    let all = json::fields7(
        a,
        b,
        json::fv("kind"@, JsonView::Text(p.proposal.kind)),
        json::fv("content"@, JsonView::Text(p.proposal.content)),
        json::fv("sensitivity"@, JsonView::Text(p.proposal.sensitivity)),
        json::fv("owner"@, p.owner),
        json::fv("intent_event"@, json::number_or_null(p.intent.intent_event)),
    );
    assert(all[0] == a && all[1] == b);
    lemma_found(all, 0);
    lemma_found(all, 1);
}

// ---------- config layers ----------

/// The layers of a stack as the log tells them apart.
pub open spec fn replayed(s: Seq<ConfigLayerView>) -> Seq<ConfigLayerAtView> {
    s.map_values(|l: ConfigLayerView| ConfigLayerAtView { key: l.module_id, package: l.package })
}

/// What a change of the composition says of its lists.
proof fn lemma_composition_members(
    epoch: u64,
    added: JsonView,
    removed: Seq<JsonView>,
    scope: Seq<char>,
    refs: Seq<Seq<char>>,
    d: JsonView,
)
    requires
        elements::composition_record(
            epoch,
            elements::delta_json(added, removed),
            scope,
            refs,
        ).payload == event::PayloadView::Document(d),
    ensures
        json::text_member(d, "initiator"@) == Some("config"@),
        json::member(d, "delta"@) == Some(elements::delta_json(added, removed)),
        json::member(elements::delta_json(added, removed), "added"@) == Some(
            JsonView::List(Seq::empty().push(added)),
        ),
        json::member(elements::delta_json(added, removed), "removed"@) == Some(
            JsonView::List(removed),
        ),
{
    reveal_strlit("epoch");
    reveal_strlit("delta");
    reveal_strlit("scope");
    reveal_strlit("initiator");
    reveal_strlit("added");
    reveal_strlit("removed");
    assert("epoch"@[0] == 'e' && "delta"@[0] == 'd' && "scope"@[0] == 's');
    assert("initiator"@[0] == 'i' && "added"@[0] == 'a' && "removed"@[0] == 'r');
    let delta = elements::delta_json(added, removed);
    let a = json::fv("epoch"@, JsonView::Unsigned(epoch));
    let b = json::fv("delta"@, delta);
    let c = json::fv("scope"@, JsonView::Text(scope));
    let e = json::fv("initiator"@, JsonView::Text("config"@));
    let all = json::fields4(a, b, c, e);
    assert(all[0] == a && all[1] == b && all[2] == c && all[3] == e);
    lemma_found(all, 1);
    lemma_found(all, 3);
    let f = json::fv("added"@, JsonView::List(Seq::empty().push(added)));
    let g = json::fv("removed"@, JsonView::List(removed));
    let both = json::fields2(f, g);
    assert(both[0] == f && both[1] == g);
    lemma_found(both, 0);
    lemma_found(both, 1);
}

/// What a listed module is read back as.
proof fn lemma_module_members(
    module: Seq<char>,
    generation: u64,
    package: Seq<char>,
    keys: Seq<Seq<char>>,
)
    ensures
        json::text_member(elements::module_json(module, generation, package), "module_id"@)
            == Some(module),
        json::text_member(elements::module_json(module, generation, package), "package"@) == Some(
            package,
        ),
        json::text_member(
            elements::module_json_with_keys(module, generation, package, keys),
            "module_id"@,
        ) == Some(module),
        json::text_member(
            elements::module_json_with_keys(module, generation, package, keys),
            "package"@,
        ) == Some(package),
{
    reveal_strlit("module_id");
    reveal_strlit("generation");
    reveal_strlit("package");
    assert("module_id"@[0] == 'm' && "generation"@[0] == 'g' && "package"@[0] == 'p');
    let a = json::fv("module_id"@, JsonView::Text(module));
    let b = json::fv("generation"@, JsonView::Unsigned(generation));
    let c = json::fv("package"@, JsonView::Text(package));
    let e = json::fv("keys"@, json::text_list(keys));
    let three = json::fields3(a, b, c);
    assert(three[0] == a && three[1] == b && three[2] == c);
    lemma_found(three, 0);
    lemma_found(three, 2);
    let four = json::fields4(a, b, c, e);
    assert(four[0] == a && four[1] == b && four[2] == c);
    lemma_found(four, 0);
    lemma_found(four, 2);
}

/// A list of one is folded in one step.
proof fn lemma_one_addition(s: Seq<ConfigLayerAtView>, codec: CodecView, item: JsonView)
    ensures
        branch::additions(s, codec, Seq::empty().push(item)) == (match branch::added_layer(
            codec,
            item,
        ) {
            Some(l) => branch::layer_put(s, l),
            None => s,
        }),
{
    let items = Seq::<JsonView>::empty().push(item);
    assert(items.drop_last() =~= Seq::empty());
    assert(branch::additions(s, codec, items.drop_last()) == s);
}

/// A replaced generation is replayed in place: the log gives the layers the
/// order that the stack has, with the new package where the old one was.
pub proof fn law_replacements_are_replayed_in_place(
    log: Seq<LogRecordView>,
    r: LogRecordView,
    codec: CodecView,
    s: Seq<ConfigLayerView>,
    epoch: u64,
    old_module: LiveModuleView,
    old_entries: Seq<EntryView>,
    place: int,
    generation: u64,
    package: Seq<char>,
    manifest: PackageManifestView,
    entries: Seq<EntryView>,
    composition: Seq<char>,
)
    requires
        0 <= place < s.len(),
        elements::one_layer_each(s),
        branch::stack_at(log, codec, r.seq) == replayed(s),
        opening::records(
            r,
            elements::replacement_record(
                epoch,
                s[place].module_id,
                old_module,
                old_entries,
                generation,
                package,
                entries,
                composition,
            ),
        ),
        reads_digest(codec, package),
    ensures
        branch::stack_at(log.push(r), codec, r.seq) == replayed(
            elements::restacked(s, s[place].module_id, generation, package, manifest),
        ),
        branch::choice_at(log.push(r), codec, r.seq) == Some(
            elements::restacked(
                s,
                s[place].module_id,
                generation,
                package,
                manifest,
            ).map_values(|l: ConfigLayerView| l.package),
        ),
{
    let module = s[place].module_id;
    let new = elements::module_json_with_keys(
        module,
        generation,
        package,
        elements::key_texts(entries),
    );
    let old_json = elements::module_json_with_keys(
        module,
        old_module.generation,
        old_module.package,
        elements::key_texts(old_entries),
    );
    let removed = Seq::empty().push(old_json);
    let added = Seq::empty().push(new);
    lemma_composition_members(
        epoch,
        new,
        removed,
        "/"@,
        Seq::empty().push(old_module.package).push(package).push(composition),
        r.payload,
    );
    lemma_module_members(module, generation, package, elements::key_texts(entries));
    lemma_module_members(
        module,
        old_module.generation,
        old_module.package,
        elements::key_texts(old_entries),
    );
    let w = replayed(s);
    let l = ConfigLayerAtView { key: module, package };
    assert(branch::added_layer(codec, added[0]) == Some(l));
    assert(branch::names_layer(codec, added, module));
    assert(removed.drop_last() =~= Seq::empty());
    assert(branch::removals(w, codec, removed.drop_last(), added) == w);
    assert(branch::removals(w, codec, removed, added) == w);
    lemma_one_addition(w, codec, new);
    assert forall|i: int| 0 <= i < place implies (#[trigger] w[i]).key != module by {
        assert(s[i].module_id != s[place].module_id);
    }
    branch::lemma_layer_place(w, module, place);
    assert(log.push(r).drop_last() =~= log);
    reveal_strlit("branch_transition");
    reveal_strlit("composition_changed");
    assert("branch_transition"@[0] == 'b' && "composition_changed"@[0] == 'c');
    let after = elements::restacked(s, module, generation, package, manifest);
    let stack = branch::stack_at(log.push(r), codec, r.seq);
    assert(stack == w.update(place, ConfigLayerAtView { package, ..w[place] }));
    assert forall|i: int| 0 <= i < s.len() implies #[trigger] stack[i] == replayed(after)[i] by {
        if i < place {
            assert(s[i].module_id != s[place].module_id);
        } else if i > place {
            assert(s[place].module_id != s[i].module_id);
        }
    }
    assert(stack =~= replayed(after));
    assert(stack.map_values(|x: ConfigLayerAtView| x.package) =~= after.map_values(
        |x: ConfigLayerView| x.package,
    ));
}

/// The activation of a layer above all others is replayed on top.
pub proof fn law_activations_are_replayed_on_top(
    log: Seq<LogRecordView>,
    r: LogRecordView,
    codec: CodecView,
    s: Seq<ConfigLayerView>,
    epoch: u64,
    l: ConfigLayerView,
    scope: Seq<char>,
    composition: Seq<char>,
)
    requires
        forall|i: int|
            0 <= i < s.len() ==> (#[trigger] s[i]).rank <= l.rank && s[i].module_id
                != l.module_id,
        branch::stack_at(log, codec, r.seq) == replayed(s),
        opening::records(
            r,
            elements::activation_record(
                epoch,
                l.module_id,
                l.generation,
                l.package,
                scope,
                composition,
            ),
        ),
        reads_digest(codec, l.package),
    ensures
        branch::stack_at(log.push(r), codec, r.seq) == replayed(elements::stacked(s, l)),
{
    let item = elements::module_json(l.module_id, l.generation, l.package);
    let none = Seq::<JsonView>::empty();
    lemma_composition_members(
        epoch,
        item,
        none,
        scope,
        Seq::empty().push(l.package).push(composition),
        r.payload,
    );
    lemma_module_members(l.module_id, l.generation, l.package, Seq::empty());
    let w = replayed(s);
    lemma_one_addition(w, codec, item);
    branch::lemma_layer_place(w, l.module_id, w.len() as int);
    assert(log.push(r).drop_last() =~= log);
    reveal_strlit("branch_transition");
    reveal_strlit("composition_changed");
    assert("branch_transition"@[0] == 'b' && "composition_changed"@[0] == 'c');
    elements::lemma_layer_on_top(s, l);
    assert(w.push(ConfigLayerAtView { key: l.module_id, package: l.package }) =~= replayed(
        s.push(l),
    ));
}

} // verus!
