//! Opening a session: what its log tells, and what is recorded before the
//! session is usable.
use vstd::prelude::*;
use vstd::string::*;
use crate::branch::{BranchRecord, BranchRecordView};
use crate::commit;
use crate::commit::{CommitState, CommitStateView, CompactedRange, CompactedRangeView};
use crate::elements;
use crate::event;
use crate::event::{Codec, CodecView, Event, EventView, LogRecord, LogRecordView, PayloadView};
use crate::ids::{Digest, Id128};
use crate::intents;
use crate::json;
use crate::json::{Json, JsonView};
use crate::memory::{MemoryScope, MemoryScopeView};
use crate::package::{PackageManifest, PackageManifestView};
use crate::recovery;
use crate::recovery::{BranchLine, TripLine};
use crate::session_error::{SessionError, SessionErrorView};
use crate::text;
use crate::transition;
use crate::value;
use crate::value::Value;

verus! {

broadcast use value::group_views;

// ---------- configuration ----------

/// What a session is opened with, apart from the engines and observers that the
/// host wires in.
#[derive(Debug, Clone, PartialEq, Eq)]
pub struct SessionConfig {
    /// The directory that holds the log, the objects and the module state.
    pub dir: String,
    pub stream: String,
    /// Payloads that take more bytes than this are promoted to objects.
    pub inline_max: usize,
    pub object_min: usize,
    /// The layers to activate, lowest first.
    pub config_layers: Vec<PackageManifest>,
    /// Why the discovery of layers fell back to the built-in one.
    pub config_discovery_error: Option<String>,
    pub max_state_bytes: usize,
    /// The root that file tools never leave.
    pub fs_root: String,
    /// How many approvals may be pending; none are without room for them.
    pub approval_bound: usize,
    pub session_id: Option<Id128>,
    pub memory_root: Option<String>,
    pub project: Option<Id128>,
}

pub struct SessionConfigView {
    pub dir: Seq<char>,
    pub stream: Seq<char>,
    pub inline_max: nat,
    pub object_min: nat,
    pub config_layers: Seq<PackageManifestView>,
    pub config_discovery_error: Option<Seq<char>>,
    pub max_state_bytes: nat,
    pub fs_root: Seq<char>,
    pub approval_bound: nat,
    pub session_id: Option<Seq<char>>,
    pub memory_root: Option<Seq<char>>,
    pub project: Option<Seq<char>>,
}

impl View for SessionConfig {
    type V = SessionConfigView;

    open spec fn view(&self) -> SessionConfigView {
        SessionConfigView {
            dir: self.dir@,
            stream: self.stream@,
            inline_max: self.inline_max as nat,
            object_min: self.object_min as nat,
            config_layers: value::views(self.config_layers@),
            config_discovery_error: value::opt_view(self.config_discovery_error),
            max_state_bytes: self.max_state_bytes as nat,
            fs_root: self.fs_root@,
            approval_bound: self.approval_bound as nat,
            session_id: value::opt_view(self.session_id),
            memory_root: value::opt_view(self.memory_root),
            project: value::opt_view(self.project),
        }
    }
}

/// The configuration that nothing was set in.
pub open spec fn default_config() -> SessionConfigView {
    SessionConfigView {
        dir: "."@,
        stream: "default"@,
        inline_max: 1024,
        object_min: 8192,
        config_layers: Seq::empty(),
        config_discovery_error: None,
        max_state_bytes: 1048576,
        fs_root: "."@,
        approval_bound: 64,
        session_id: None,
        memory_root: None,
        project: None,
    }
}

impl Default for SessionConfig {
    fn default() -> (r: Self)
        ensures
            r@ == default_config(),
    {
        SessionConfig {
            dir: ".".to_owned(),
            stream: "default".to_owned(),
            inline_max: 1024,
            object_min: 8192,
            config_layers: Vec::new(),
            config_discovery_error: None,
            max_state_bytes: 1048576,
            fs_root: ".".to_owned(),
            approval_bound: 64,
            session_id: None,
            memory_root: None,
            project: None,
        }
    }
}

// ---------- where the log stands ----------

/// The sequence number of the next event: the first of a fresh log, else the
/// one after the last.
pub fn next_seq(events: u64, last_seq: u64) -> (r: u64)
    requires
        last_seq < u64::MAX,
    ensures
        r == if events == 0 {
            1
        } else {
            last_seq + 1
        },
{
    if events == 0 {
        1
    } else {
        last_seq + 1
    }
}

/// The state that commits go on from: a fresh log starts against the genesis
/// snapshot, a resumed one against none.
pub open spec fn starting(
    events: u64,
    last_seq: u64,
    compacted: Seq<CompactedRangeView>,
    genesis: Option<Seq<char>>,
) -> CommitStateView {
    CommitStateView {
        next_seq: if events == 0 {
            1
        } else {
            (last_seq + 1) as u64
        },
        recent_events: Seq::empty(),
        compacted,
        snapshot: if events == 0 {
            genesis
        } else {
            None
        },
    }
}

/// Starts from a log of so many events; `genesis` is the pinned bootstrap
/// snapshot.
pub fn starting_state(
    events: u64,
    last_seq: u64,
    compacted: Vec<CompactedRange>,
    genesis: Option<Digest>,
) -> (r: CommitState)
    requires
        last_seq < u64::MAX,
    ensures
        r@ == starting(events, last_seq, value::views(compacted@), value::opt_view(genesis)),
{
    let snapshot = if events == 0 {
        genesis
    } else {
        None
    };
    CommitState::new(next_seq(events, last_seq), compacted, snapshot)
}

/// A project as the registry of projects lists it.
#[derive(Debug, Clone, PartialEq, Eq)]
pub struct ProjectEntry {
    pub project_id: Id128,
    pub name: String,
    /// Its scope under the memory root.
    pub dir: String,
    pub created_session: Id128,
    pub created_event: u64,
}

pub struct ProjectEntryView {
    pub project_id: Seq<char>,
    pub name: Seq<char>,
    pub dir: Seq<char>,
    pub created_session: Seq<char>,
    pub created_event: u64,
}

impl View for ProjectEntry {
    type V = ProjectEntryView;

    open spec fn view(&self) -> ProjectEntryView {
        ProjectEntryView {
            project_id: self.project_id@,
            name: self.name@,
            dir: self.dir@,
            created_session: self.created_session@,
            created_event: self.created_event,
        }
    }
}

impl Value for ProjectEntry {
    fn copy(&self) -> (r: Self) {
        ProjectEntry {
            project_id: self.project_id.copy(),
            name: self.name.copy(),
            dir: self.dir.copy(),
            created_session: self.created_session.copy(),
            created_event: self.created_event,
        }
    }

    fn same(&self, other: &Self) -> (r: bool) {
        self.project_id.same(&other.project_id)
            && self.name.same(&other.name)
            && self.dir.same(&other.dir)
            && self.created_session.same(&other.created_session)
            && self.created_event == other.created_event
    }
}

/// The entry of a project that the registry does not list yet.
pub open spec fn first_entry(project: Seq<char>, session: Seq<char>, next_seq: u64) -> ProjectEntryView {
    ProjectEntryView {
        project_id: project,
        name: "default"@,
        dir: "projects/"@ + project,
        created_session: session,
        created_event: next_seq,
    }
}

/// The registry's entry of a project, or a fresh one and whether it is to be
/// registered.
pub fn project_entry(
    known: Option<ProjectEntry>,
    project: &Id128,
    session: &Id128,
    next_seq: u64,
) -> (r: (ProjectEntry, bool))
    ensures
        r.1 == known is None,
        r.0@ == (match known {
            Some(e) => e@,
            None => first_entry(project@, session@, next_seq),
        }),
{
    match known {
        Some(e) => (e, false),
        None => (
            ProjectEntry {
                project_id: project.copy(),
                name: "default".to_owned(),
                dir: text::cat2("projects/", project.text.as_str()),
                created_session: session.copy(),
                created_event: next_seq,
            },
            true,
        ),
    }
}

/// The branch that a session is on: that of the last transition, or a fresh
/// one.
pub open spec fn branch_in(records: Seq<BranchRecordView>, fresh: Seq<char>) -> Seq<char> {
    if records.len() == 0 {
        fresh
    } else {
        records.last().id
    }
}

pub fn current_branch(records: &Vec<BranchRecord>, fresh: Id128) -> (r: Id128)
    ensures
        r@ == branch_in(value::views(records@), fresh@),
{
    if records.len() == 0 {
        fresh
    } else {
        records[records.len() - 1].id.copy()
    }
}

// ---------- the index ----------

/// A memory scope at its head, as the index is built over it.
#[derive(Debug, Clone, PartialEq, Eq)]
pub struct ScopeHead {
    pub scope: MemoryScope,
    pub root: Option<Digest>,
}

pub struct ScopeHeadView {
    pub scope: MemoryScopeView,
    pub root: Option<Seq<char>>,
}

impl View for ScopeHead {
    type V = ScopeHeadView;

    open spec fn view(&self) -> ScopeHeadView {
        ScopeHeadView { scope: self.scope@, root: value::opt_view(self.root) }
    }
}

/// The scopes that the index is built over when a session opens: the lifetime
/// scope always, empty or not, and the project's where one is bound.
pub open spec fn indexed_at_open(
    lifetime: Option<Seq<char>>,
    project: Option<Seq<char>>,
    project_head: Option<Seq<char>>,
) -> Seq<ScopeHeadView> {
    let own = Seq::empty().push(
        ScopeHeadView { scope: MemoryScopeView::Lifetime, root: lifetime },
    );
    match project {
        Some(id) => own.push(
            ScopeHeadView { scope: MemoryScopeView::Project(id), root: project_head },
        ),
        None => own,
    }
}

/// Lists the scopes to index.
pub fn scopes_to_index(
    lifetime: &Option<Digest>,
    project: &Option<Id128>,
    project_head: &Option<Digest>,
) -> (r: Vec<ScopeHead>)
    ensures
        value::views(r@) == indexed_at_open(
            value::opt_view(*lifetime),
            value::opt_view(*project),
            value::opt_view(*project_head),
        ),
{
    let mut out: Vec<ScopeHead> = Vec::new();
    assert(value::views(out@) =~= Seq::empty());
    out.push(ScopeHead { scope: MemoryScope::Lifetime, root: value::copy_opt(lifetime) });
    if let Some(id) = project {
        out.push(
            ScopeHead {
                scope: MemoryScope::Project(id.copy()),
                root: value::copy_opt(project_head),
            },
        );
    }
    out
}

// ---------- recovery ----------

/// What a session recovers from its log before it is built.
#[derive(Debug, Clone, PartialEq, Eq)]
pub struct Recovered {
    /// The backlinks it owes.
    pub backlinks: Vec<Event>,
    pub compacted: Vec<CompactedRange>,
    pub records: Vec<BranchRecord>,
    pub branch: Id128,
    /// The trip that still pauses cognition.
    pub pause: Option<Json>,
}

pub struct RecoveredView {
    pub backlinks: Seq<EventView>,
    pub compacted: Seq<CompactedRangeView>,
    pub records: Seq<BranchRecordView>,
    pub branch: Seq<char>,
    pub pause: Option<JsonView>,
}

impl View for Recovered {
    type V = RecoveredView;

    open spec fn view(&self) -> RecoveredView {
        RecoveredView {
            backlinks: value::views(self.backlinks@),
            compacted: value::views(self.compacted@),
            records: value::views(self.records@),
            branch: self.branch@,
            pause: value::opt_view(self.pause),
        }
    }
}

/// The memory that a session is wired to: the transitions it originated there,
/// which the log should link back to.
#[derive(Debug, Clone, PartialEq, Eq)]
pub struct Originated {
    pub transitions: Vec<Id128>,
    pub scope: Json,
}

/// The backlinks owed to the lifetime memory, then to the project's.
pub open spec fn owed(
    log: Seq<LogRecordView>,
    lifetime: Originated,
    project: Option<Originated>,
) -> Seq<EventView> {
    let first = recovery::missing_backlinks(
        log,
        value::views(lifetime.transitions@),
        lifetime.scope@,
    );
    match project {
        Some(p) => first + recovery::missing_backlinks(
            log,
            value::views(p.transitions@),
            p.scope@,
        ),
        None => first,
    }
}

/// What is recovered, or why the session does not open: a corrupt transition,
/// else a corrupt trip.
pub open spec fn recovery_of(
    log: Seq<LogRecordView>,
    branch_lines: Seq<BranchLine>,
    trip_lines: Seq<TripLine>,
    lifetime: Originated,
    project: Option<Originated>,
    fresh: Seq<char>,
    codec: CodecView,
) -> Result<RecoveredView, SessionErrorView> {
    match (recovery::branches(branch_lines), recovery::standing_trip(trip_lines)) {
        (Err(e), _) => Err(e),
        (_, Err(e)) => Err(e),
        (Ok(records), Ok(pause)) => Ok(
            RecoveredView {
                backlinks: owed(log, lifetime, project),
                compacted: commit::compactions_in(log, codec),
                records,
                branch: branch_in(records, fresh),
                pause,
            },
        ),
    }
}

/// Recovers a session's state from its log. Canonical records are
/// load-bearing: one that cannot be read keeps the session from opening.
pub fn recover(
    log: &Vec<LogRecord>,
    branch_lines: &Vec<BranchLine>,
    trip_lines: &Vec<TripLine>,
    lifetime: &Originated,
    project: &Option<Originated>,
    fresh: Id128,
    codec: &Codec,
) -> (r: Result<Recovered, SessionError>)
    ensures
        ({
            let want = recovery_of(
                value::views(log@),
                branch_lines@,
                trip_lines@,
                *lifetime,
                *project,
                fresh@,
                codec@,
            );
            match r {
                Ok(x) => want == Ok::<RecoveredView, SessionErrorView>(x@),
                Err(e) => want == Err::<RecoveredView, SessionErrorView>(e@),
            }
        }),
{
    let mut backlinks = recovery::pending_backlinks(log, &lifetime.transitions, &lifetime.scope);
    let ghost first = value::views(backlinks@);
    match project {
        Some(p) => {
            let mut more = recovery::pending_backlinks(log, &p.transitions, &p.scope);
            let ghost second = value::views(more@);
            backlinks.append(&mut more);
            assert(value::views(backlinks@) =~= first + second);
        },
        None => {},
    }
    let compacted = commit::recover_compactions(log, codec);
    let records = match recovery::recover_branches(branch_lines) {
        Ok(x) => x,
        Err(e) => return Err(e),
    };
    let branch = current_branch(&records, fresh);
    match recovery::recover_trip(trip_lines) {
        Ok(pause) => Ok(Recovered { backlinks, compacted, records, branch, pause }),
        Err(e) => Err(e),
    }
}

// ---------- facts ----------

/// The record of a project bound to a session.
pub open spec fn binding(project: Seq<char>, memory_root: Seq<char>) -> EventView {
    event::document(
        "project_bound"@,
        JsonView::Object(json::fields2(json::fv("project_id"@, JsonView::Text(project)), json::fv("memory_root"@, JsonView::Text(memory_root)))),
    )
}

pub open spec fn if_any(events: Seq<EventView>) -> Seq<Seq<EventView>> {
    if events.len() == 0 {
        Seq::empty()
    } else {
        Seq::empty().push(events)
    }
}

/// The facts of a degraded discovery: none when safe mode is recorded already.
pub open spec fn discovery_facts(discovery: Option<Seq<char>>, safe_mode: bool) -> Seq<EventView> {
    match discovery {
        Some(reason) if !safe_mode => Seq::empty().push(
            elements::safe_mode_record("config discovery degraded: "@ + reason),
        ),
        _ => Seq::empty(),
    }
}

/// The fact of a bound project: on a fresh log only, as a resumed one carries
/// it.
pub open spec fn binding_facts(project: Option<Seq<char>>, memory_root: Seq<char>, fresh: bool) -> Seq<
    EventView,
> {
    match project {
        Some(p) if fresh => Seq::empty().push(binding(p, memory_root)),
        _ => Seq::empty(),
    }
}

/// What is committed once the layers are active, one commit for each batch.
pub open spec fn opening_facts(
    discovery: Option<Seq<char>>,
    safe_mode: bool,
    backlinks: Seq<EventView>,
    project: Option<Seq<char>>,
    memory_root: Seq<char>,
    fresh: bool,
) -> Seq<Seq<EventView>> {
    if_any(discovery_facts(discovery, safe_mode)) + if_any(backlinks) + if_any(
        binding_facts(project, memory_root, fresh),
    )
}

pub open spec fn batches(s: Seq<Vec<Event>>) -> Seq<Seq<EventView>> {
    s.map_values(|b: Vec<Event>| value::views(b@))
}

/// The batches to commit once the layers are active, in this order.
pub fn opening_events(
    discovery: &Option<String>,
    safe_mode: bool,
    backlinks: Vec<Event>,
    project: &Option<Id128>,
    memory_root: &str,
    fresh: bool,
) -> (r: Vec<Vec<Event>>)
    ensures
        batches(r@) == opening_facts(
            value::opt_view(*discovery),
            safe_mode,
            value::views(backlinks@),
            value::opt_view(*project),
            memory_root@,
            fresh,
        ),
{
    let mut out: Vec<Vec<Event>> = Vec::new();
    let ghost first = discovery_facts(value::opt_view(*discovery), safe_mode);
    let ghost second = value::views(backlinks@);
    let ghost third = binding_facts(value::opt_view(*project), memory_root@, fresh);
    match discovery {
        Some(reason) => {
            if !safe_mode {
                let full = text::cat2("config discovery degraded: ", reason.as_str());
                let mut batch: Vec<Event> = Vec::new();
                batch.push(elements::safe_mode_event(full.as_str()));
                out.push(batch);
            }
        },
        None => {},
    }
    assert(batches(out@) =~= if_any(first));
    let ghost before = out@;
    if backlinks.len() > 0 {
        out.push(backlinks);
    }
    assert(batches(out@) =~= if_any(first) + if_any(second));
    match project {
        Some(p) => {
            if fresh {
                let f = json::field(json::no_fields(), "project_id", json::text_json(p.text.as_str()));
                let f = json::field(f, "memory_root", json::text_json(memory_root));
                let mut batch: Vec<Event> = Vec::new();
                batch.push(event::document_event("project_bound", json::record(f)));
                out.push(batch);
            }
        },
        None => {},
    }
    assert(batches(out@) =~= if_any(first) + if_any(second) + if_any(third));
    out
}

// ---------- laws ----------

/// The record holds the event.
pub open spec fn records(r: LogRecordView, e: EventView) -> bool {
    r.kind == e.kind && e.payload == PayloadView::Document(r.payload)
}

/// Reopening duplicates no backlink: once the log holds those that were owed,
/// nothing is owed.
pub proof fn law_reopening_owes_nothing(
    log: Seq<LogRecordView>,
    later: Seq<LogRecordView>,
    transitions: Seq<Seq<char>>,
    scope: JsonView,
)
    requires
        log.len() <= later.len(),
        log == later.take(log.len() as int),
        forall|i: int|
            0 <= i < recovery::missing_backlinks(log, transitions, scope).len() ==> exists|j: int|
                0 <= j < later.len() && records(
                    #[trigger] later[j],
                    #[trigger] recovery::missing_backlinks(log, transitions, scope)[i],
                ),
    ensures
        recovery::missing_backlinks(later, transitions, scope) == Seq::<EventView>::empty(),
{
    assert forall|k: int| 0 <= k < transitions.len() implies recovery::is_backed(
        later,
        #[trigger] transitions[k],
    ) by {
        if recovery::is_backed(log, transitions[k]) {
            let i = choose|i: int|
                0 <= i < log.len() && (#[trigger] log[i]).kind == "memory_transition_backlink"@
                    && json::text_member(log[i].payload, "transition_id"@) == Some(
                    transitions[k],
                );
            assert(later[i] == log[i]);
        } else {
            let owed = recovery::missing_backlinks(log, transitions, scope);
            lemma_owed(log, transitions, scope, k);
            let e = transition::backlink(transitions[k], scope);
            let i = choose|i: int| 0 <= i < owed.len() && owed[i] == e;
            let j = choose|j: int| 0 <= j < later.len() && records(#[trigger] later[j], owed[i]);
            lemma_backlink_names(transitions[k], scope);
            assert(later[j].kind == "memory_transition_backlink"@);
        }
    }
    recovery::law_backlinks_are_made_once(later, transitions, scope);
}

proof fn lemma_owed(
    log: Seq<LogRecordView>,
    transitions: Seq<Seq<char>>,
    scope: JsonView,
    k: int,
)
    requires
        0 <= k < transitions.len(),
        !recovery::is_backed(log, transitions[k]),
    ensures
        recovery::missing_backlinks(log, transitions, scope).contains(
            transition::backlink(transitions[k], scope),
        ),
    decreases transitions.len(),
{
    let d = transitions.drop_last();
    let rest = recovery::missing_backlinks(log, d, scope);
    let all = recovery::missing_backlinks(log, transitions, scope);
    let e = transition::backlink(transitions[k], scope);
    if k < d.len() {
        assert(d[k] == transitions[k]);
        lemma_owed(log, d, scope, k);
        let i = choose|i: int| 0 <= i < rest.len() && rest[i] == e;
        assert(all[i] == e);
    } else {
        assert(all[all.len() - 1] == e);
    }
}

proof fn lemma_backlink_names(t: Seq<char>, scope: JsonView)
    ensures
        transition::backlink(t, scope).payload matches PayloadView::Document(d) && json::text_member(
            d,
            "transition_id"@,
        ) == Some(t),
{
    reveal_strlit("transition_id");
    reveal_strlit("scope");
    reveal_with_fuel(json::lookup, 3);
    let f = json::fields2(
        json::fv("transition_id"@, JsonView::Text(t)),
        json::fv("scope"@, scope),
    );
    assert("transition_id"@.len() != "scope"@.len());
    assert(f[0] == json::fv("transition_id"@, JsonView::Text(t)));
    assert(f[1] == json::fv("scope"@, scope));
}

/// Safe mode is recorded once: a degraded discovery adds nothing to an
/// activation that failed, and only a fresh log gets a project bound.
pub proof fn law_opening_facts_are_recorded_once(
    discovery: Option<Seq<char>>,
    backlinks: Seq<EventView>,
    project: Option<Seq<char>>,
    memory_root: Seq<char>,
)
    ensures
        opening_facts(discovery, true, backlinks, project, memory_root, false) == if_any(
            backlinks,
        ),
{
    assert(if_any(discovery_facts(discovery, true)) =~= Seq::empty());
    assert(if_any(binding_facts(project, memory_root, false)) =~= Seq::empty());
    assert(opening_facts(discovery, true, backlinks, project, memory_root, false) =~= if_any(
        backlinks,
    ));
}

/// The seqs of the transitions among the lines of a log, in its order.
pub open spec fn transition_seqs(lines: Seq<BranchLine>) -> Seq<u64>
    decreases lines.len(),
{
    if lines.len() == 0 {
        Seq::empty()
    } else {
        let rest = transition_seqs(lines.drop_last());
        match lines.last().decoded {
            Ok(r) => if r@.kind == "branch_transition"@ {
                rest.push(r@.seq)
            } else {
                rest
            },
            Err(_) => rest,
        }
    }
}

/// The log holds one branch for each of its transitions, in its order.
pub proof fn law_branches_are_the_transitions(
    lines: Seq<BranchLine>,
    records: Seq<BranchRecordView>,
)
    requires
        recovery::branches(lines) == Ok::<Seq<BranchRecordView>, SessionErrorView>(records),
    ensures
        records.map_values(|b: BranchRecordView| b.transition_seq) == transition_seqs(lines),
    decreases lines.len(),
{
    if lines.len() > 0 {
        let rest = recovery::branches(lines.drop_last())->Ok_0;
        law_branches_are_the_transitions(lines.drop_last(), rest);
        let kinds = recovery::branch_kinds();
        assert(kinds[0] == "branch_transition"@);
        assert(forall|k: Seq<char>| kinds.contains(k) <==> k == "branch_transition"@);
        match recovery::branch_at(lines.last()) {
            Ok(Some(b)) => {
                assert(records.map_values(|b: BranchRecordView| b.transition_seq)
                    =~= rest.map_values(|b: BranchRecordView| b.transition_seq).push(
                    b.transition_seq,
                ));
            },
            _ => {
                assert(records == rest);
            },
        }
    } else {
        assert(records.map_values(|b: BranchRecordView| b.transition_seq) =~= Seq::empty());
    }
}

proof fn lemma_nothing_to_classify(
    records: Seq<LogRecordView>,
    log: Seq<LogRecordView>,
)
    requires
        forall|i: int|
            0 <= i < records.len() ==> (intents::intent_of(#[trigger] records[i]) matches Some(x)
                ==> x.call_id is Some ==> !intents::is_pending(log, x)),
    ensures
        intents::classifications(intents::pending_among(records, log)) == Seq::<
            EventView,
        >::empty(),
    decreases records.len(),
{
    if records.len() > 0 {
        let front = records.drop_last();
        assert forall|i: int| 0 <= i < front.len() implies (intents::intent_of(
            #[trigger] front[i],
        ) matches Some(x) ==> x.call_id is Some ==> !intents::is_pending(log, x)) by {
            assert(front[i] == records[i]);
        }
        lemma_nothing_to_classify(front, log);
        assert(records[records.len() - 1] == records.last());
        match intents::intent_of(records.last()) {
            Some(x) => {
                let rest = intents::pending_among(front, log);
                assert(rest.push(x).drop_last() =~= rest);
            },
            None => {},
        }
    }
}

/// Reopening a settled log records nothing: with every tool intent answered,
/// every transition linked back, no layer to activate and nothing degraded,
/// there is no event to commit. The session goes on at the seq behind the
/// last, on the last branch of the log, and against no snapshot.
pub proof fn law_reopening_a_settled_log_records_nothing(
    log: Seq<LogRecordView>,
    branch_lines: Seq<BranchLine>,
    trip_lines: Seq<TripLine>,
    lifetime: Originated,
    project: Option<Originated>,
    fresh: Seq<char>,
    codec: CodecView,
    r: RecoveredView,
    bound: Option<Seq<char>>,
    memory_root: Seq<char>,
    events: u64,
    last_seq: u64,
    genesis: Option<Seq<char>>,
)
    requires
        events > 0,
        last_seq < u64::MAX,
        recovery_of(log, branch_lines, trip_lines, lifetime, project, fresh, codec) == Ok::<
            RecoveredView,
            SessionErrorView,
        >(r),
        forall|i: int|
            0 <= i < log.len() ==> (intents::intent_of(#[trigger] log[i]) matches Some(x)
                ==> x.call_id is Some ==> !intents::is_pending(log, x)),
        forall|i: int|
            0 <= i < lifetime.transitions@.len() ==> recovery::is_backed(
                log,
                #[trigger] value::views(lifetime.transitions@)[i],
            ),
        project matches Some(p) ==> forall|i: int|
            0 <= i < p.transitions@.len() ==> recovery::is_backed(
                log,
                #[trigger] value::views(p.transitions@)[i],
            ),
    ensures
        elements::activating(Seq::empty(), 0) is Done,
        opening_facts(None, false, r.backlinks, bound, memory_root, events == 0) == Seq::<
            Seq<EventView>,
        >::empty(),
        intents::classifications(intents::pending(log)) == Seq::<EventView>::empty(),
        starting(events, last_seq, r.compacted, genesis).next_seq == last_seq + 1,
        starting(events, last_seq, r.compacted, genesis).snapshot is None,
        r.records.map_values(|b: BranchRecordView| b.transition_seq) == transition_seqs(
            branch_lines,
        ),
        r.records.len() > 0 ==> r.branch == r.records.last().id,
{
    lemma_nothing_to_classify(log, log);
    recovery::law_backlinks_are_made_once(
        log,
        value::views(lifetime.transitions@),
        lifetime.scope@,
    );
    match project {
        Some(p) => {
            recovery::law_backlinks_are_made_once(log, value::views(p.transitions@), p.scope@);
        },
        None => {},
    }
    assert(r.backlinks =~= Seq::<EventView>::empty());
    law_branches_are_the_transitions(branch_lines, r.records);
}

/// A fresh session starts with the first seq, against the genesis snapshot,
/// and its first event gets that seq.
pub proof fn law_fresh_sessions_start_at_genesis(
    last_seq: u64,
    genesis: Seq<char>,
    events: Seq<commit::EncodedEventView>,
    codec: CodecView,
)
    requires
        events.len() > 0,
        events.len() < u64::MAX,
    ensures
        ({
            let s = starting(0, last_seq, Seq::empty(), Some(genesis));
            &&& s.snapshot == Some(genesis)
            &&& s.next_seq == 1
            &&& commit::numbered_from(events, s.next_seq)[0].seq == 1
            &&& commit::advanced(s, events, codec).next_seq == 1 + events.len()
        }),
{
}

/// A resumed session goes on behind its last event and against no snapshot, a
/// fresh one starts at the first seq against the genesis; what was compacted stays
/// compacted. It is on the branch of its last transition, or on a fresh one.
pub proof fn law_sessions_go_on_where_they_were(
    events: u64,
    last_seq: u64,
    compacted: Seq<CompactedRangeView>,
    genesis: Option<Seq<char>>,
    records: Seq<BranchRecordView>,
    r: BranchRecordView,
    fresh: Seq<char>,
)
    requires
        last_seq < u64::MAX,
    ensures
        ({
            let s = starting(events, last_seq, compacted, genesis);
            &&& events == 0 ==> s.next_seq == 1 && s.snapshot == genesis
            &&& events > 0 ==> s.next_seq == last_seq + 1 && s.snapshot is None
            &&& s.compacted == compacted
            &&& s.recent_events.len() == 0
        }),
        branch_in(Seq::empty(), fresh) == fresh,
        branch_in(records.push(r), fresh) == r.id,
{
}

/// What is recovered is what the log holds: its branches, its pause, its
/// compactions, and the backlinks owed to the lifetime memory and the project's. A
/// corrupt transition or trip keeps the session from opening, and nothing else.
pub proof fn law_recovery_is_complete(
    log: Seq<LogRecordView>,
    branch_lines: Seq<BranchLine>,
    trip_lines: Seq<TripLine>,
    lifetime: Originated,
    project: Option<Originated>,
    fresh: Seq<char>,
    codec: CodecView,
)
    ensures
        recovery_of(log, branch_lines, trip_lines, lifetime, project, fresh, codec) is Ok
            <==> recovery::branches(branch_lines) is Ok && recovery::standing_trip(trip_lines) is Ok,
        recovery_of(log, branch_lines, trip_lines, lifetime, project, fresh, codec) matches Ok(r)
            ==> {
            &&& recovery::branches(branch_lines) == Ok::<Seq<BranchRecordView>, SessionErrorView>(
                r.records,
            )
            &&& recovery::standing_trip(trip_lines) == Ok::<Option<JsonView>, SessionErrorView>(
                r.pause,
            )
            &&& r.compacted == commit::compactions_in(log, codec)
            &&& r.records.len() == 0 ==> r.branch == fresh
            &&& r.records.len() > 0 ==> r.branch == r.records.last().id
            &&& project is None ==> r.backlinks == recovery::missing_backlinks(
                log,
                value::views(lifetime.transitions@),
                lifetime.scope@,
            )
            &&& project matches Some(p) ==> r.backlinks == recovery::missing_backlinks(
                log,
                value::views(lifetime.transitions@),
                lifetime.scope@,
            ) + recovery::missing_backlinks(log, value::views(p.transitions@), p.scope@)
        },
{
}

/// The facts that opening owes, each in a commit of its own and in this order: a
/// degraded discovery unless safe mode is recorded already, the backlinks, and on
/// a fresh log the bound project.
pub proof fn law_opening_records_what_it_owes(
    discovery: Option<Seq<char>>,
    safe_mode: bool,
    backlinks: Seq<EventView>,
    project: Option<Seq<char>>,
    memory_root: Seq<char>,
    fresh: bool,
)
    ensures
        ({
            let facts = opening_facts(discovery, safe_mode, backlinks, project, memory_root, fresh);
            let degraded = discovery is Some && !safe_mode;
            let binds = project is Some && fresh;
            let n: int = if degraded { 1 } else { 0 };
            let m: int = if backlinks.len() > 0 { n + 1 } else { n };
            &&& facts.len() == if binds { m + 1 } else { m }
            &&& degraded ==> facts[0] == seq![
                elements::safe_mode_record("config discovery degraded: "@ + discovery->0),
            ]
            &&& backlinks.len() > 0 ==> facts[n] == backlinks
            &&& binds ==> facts[m] == seq![binding(project->0, memory_root)]
        }),
{
    let a = discovery_facts(discovery, safe_mode);
    let b = backlinks;
    let c = binding_facts(project, memory_root, fresh);
    if discovery is Some && !safe_mode {
        assert(a =~= seq![
            elements::safe_mode_record("config discovery degraded: "@ + discovery->0),
        ]);
    }
    if project is Some && fresh {
        assert(c =~= seq![binding(project->0, memory_root)]);
    }
}

/// The index is built over the lifetime scope always, and over the project's where
/// one is bound, each at its head. A project that is not registered yet is
/// registered for this session and its next event.
pub proof fn law_indexes_cover_the_bound_scopes(
    lifetime: Option<Seq<char>>,
    project: Option<Seq<char>>,
    head: Option<Seq<char>>,
    id: Seq<char>,
    session: Seq<char>,
    next_seq: u64,
)
    ensures
        ({
            let s = indexed_at_open(lifetime, project, head);
            &&& s.len() == if project is Some { 2int } else { 1 }
            &&& s[0].scope is Lifetime && s[0].root == lifetime
            &&& project matches Some(p) ==> s[1].scope == MemoryScopeView::Project(p) && s[1].root
                == head
        }),
        first_entry(id, session, next_seq).project_id == id,
        first_entry(id, session, next_seq).created_session == session,
        first_entry(id, session, next_seq).created_event == next_seq,
{
}

/// A session is opened in the current directory with these limits unless it is
/// told otherwise.
pub proof fn law_sessions_have_their_defaults()
    ensures
        ({
            let c = default_config();
            &&& c.dir == "."@
            &&& c.fs_root == "."@
            &&& c.stream == "default"@
            &&& c.inline_max == 1024
            &&& c.object_min == 8192
            &&& c.max_state_bytes == 1048576
            &&& c.approval_bound == 64
            &&& c.config_layers.len() == 0
            &&& c.config_discovery_error is None
            &&& c.session_id is None
            &&& c.memory_root is None
            &&& c.project is None
        }),
{
}

/// The backlinks of both registries are owed, the lifetime's first.
pub proof fn law_both_registries_are_owed_their_backlinks(
    log: Seq<LogRecordView>,
    lifetime: Originated,
    p: Originated,
)
    ensures
        owed(log, lifetime, None) == recovery::missing_backlinks(
            log,
            value::views(lifetime.transitions@),
            lifetime.scope@,
        ),
        owed(log, lifetime, Some(p)) == owed(log, lifetime, None) + owed(log, p, None),
{
}

} // verus!
