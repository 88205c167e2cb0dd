//! Branches: checkpoints, transitions, the path of a branch, the config that
//! was live at a point, and what memory a branch follows.
use vstd::prelude::*;
use vstd::string::*;
use crate::event;
use crate::event::{Codec, CodecView, Event, EventView, LogRecord, LogRecordView};
use crate::ids::{Digest, Id128};
use crate::intents;
use crate::intents::{QuiescedIntent, QuiescedIntentView};
use crate::json;
use crate::json::{Json, JsonView};
use crate::session_error;
use crate::session_error::{SessionError, SessionErrorView};
use crate::text;
use crate::value;
use crate::value::Value;

verus! {

broadcast use value::group_views;

/// The longest label of a checkpoint, in characters.
pub const CHECKPOINT_LABEL_MAX: usize = 200;

/// The memory roots that a branch is pinned to.
#[derive(Debug, Clone, PartialEq, Eq)]
pub struct PinnedRoots {
    pub lifetime: Digest,
    pub project: Option<Digest>,
}

pub struct PinnedRootsView {
    pub lifetime: Seq<char>,
    pub project: Option<Seq<char>>,
}

impl View for PinnedRoots {
    type V = PinnedRootsView;

    open spec fn view(&self) -> PinnedRootsView {
        PinnedRootsView {
            lifetime: self.lifetime@,
            project: value::opt_view(self.project),
        }
    }
}

impl Value for PinnedRoots {
    fn copy(&self) -> (r: Self) {
        PinnedRoots {
            lifetime: self.lifetime.copy(),
            project: value::copy_opt(&self.project),
        }
    }

    fn same(&self, other: &Self) -> (r: bool) {
        self.lifetime.same(&other.lifetime)
            && value::same_opt(&self.project, &other.project)
    }
}

/// Which memory a branch sees: the heads as they move, or pinned roots.
#[derive(Debug, Clone, PartialEq, Eq)]
pub enum MemoryFollow {
    FollowHead,
    PinnedAt { lifetime_root: Digest, project_root: Option<Digest> },
}

pub enum MemoryFollowView {
    FollowHead,
    PinnedAt { lifetime_root: Seq<char>, project_root: Option<Seq<char>> },
}

impl View for MemoryFollow {
    type V = MemoryFollowView;

    open spec fn view(&self) -> MemoryFollowView {
        match *self {
            MemoryFollow::FollowHead => MemoryFollowView::FollowHead,
            MemoryFollow::PinnedAt { lifetime_root, project_root } => MemoryFollowView::PinnedAt { lifetime_root: lifetime_root@, project_root: value::opt_view(project_root) },
        }
    }
}

impl Value for MemoryFollow {
    fn copy(&self) -> (r: Self) {
        match self {
            MemoryFollow::FollowHead => MemoryFollow::FollowHead,
            MemoryFollow::PinnedAt { lifetime_root, project_root } => MemoryFollow::PinnedAt { lifetime_root: lifetime_root.copy(), project_root: value::copy_opt(project_root) },
        }
    }

    fn same(&self, other: &Self) -> (r: bool) {
        match (self, other) {
            (MemoryFollow::FollowHead, MemoryFollow::FollowHead) => true,
            (MemoryFollow::PinnedAt { lifetime_root, project_root }, MemoryFollow::PinnedAt { lifetime_root: lifetime_root_other, project_root: project_root_other }) => lifetime_root.same(lifetime_root_other) && value::same_opt(project_root, project_root_other),
            _ => false,
        }
    }
}

/// A committed checkpoint.
#[derive(Debug, Clone, PartialEq, Eq)]
pub struct CheckpointRef {
    pub session_id: Id128,
    pub seq: u64,
}

pub struct CheckpointRefView {
    pub session_id: Seq<char>,
    pub seq: u64,
}

impl View for CheckpointRef {
    type V = CheckpointRefView;

    open spec fn view(&self) -> CheckpointRefView {
        CheckpointRefView {
            session_id: self.session_id@,
            seq: self.seq,
        }
    }
}

impl Value for CheckpointRef {
    fn copy(&self) -> (r: Self) {
        CheckpointRef {
            session_id: self.session_id.copy(),
            seq: self.seq,
        }
    }

    fn same(&self, other: &Self) -> (r: bool) {
        self.session_id.same(&other.session_id)
            && self.seq == other.seq
    }
}

/// The intents that a transition left behind: those without an outcome are
/// cancelled, the classified ones of the abandoned tail stay ambiguous.
#[derive(Debug, Clone, PartialEq, Eq)]
pub struct QuiesceRecord {
    pub cancelled: Vec<QuiescedIntent>,
    pub ambiguous: Vec<QuiescedIntent>,
}

pub struct QuiesceRecordView {
    pub cancelled: Seq<QuiescedIntentView>,
    pub ambiguous: Seq<QuiescedIntentView>,
}

impl View for QuiesceRecord {
    type V = QuiesceRecordView;

    open spec fn view(&self) -> QuiesceRecordView {
        QuiesceRecordView {
            cancelled: value::views(self.cancelled@),
            ambiguous: value::views(self.ambiguous@),
        }
    }
}

impl Value for QuiesceRecord {
    fn copy(&self) -> (r: Self) {
        QuiesceRecord {
            cancelled: value::copy_vec(&self.cancelled),
            ambiguous: value::copy_vec(&self.ambiguous),
        }
    }

    fn same(&self, other: &Self) -> (r: bool) {
        value::same_vec(&self.cancelled, &other.cancelled)
            && value::same_vec(&self.ambiguous, &other.ambiguous)
    }
}

impl Default for QuiesceRecord {
    fn default() -> (r: Self)
        ensures
            r@ == (QuiesceRecordView { cancelled: Seq::empty(), ambiguous: Seq::empty() }),
    {
        QuiesceRecord { cancelled: Vec::new(), ambiguous: Vec::new() }
    }
}

/// The config at a branch point: what was live, what the checkpoint pinned, and the
/// whole stack of layers, lowest first.
#[derive(Debug, Clone, PartialEq, Eq)]
pub struct ConfigChoiceRecord {
    pub mode: String,
    pub current: Option<Digest>,
    pub historical: Option<Digest>,
    pub composition: Option<Digest>,
    pub layers: Vec<Digest>,
}

pub struct ConfigChoiceRecordView {
    pub mode: Seq<char>,
    pub current: Option<Seq<char>>,
    pub historical: Option<Seq<char>>,
    pub composition: Option<Seq<char>>,
    pub layers: Seq<Seq<char>>,
}

impl View for ConfigChoiceRecord {
    type V = ConfigChoiceRecordView;

    open spec fn view(&self) -> ConfigChoiceRecordView {
        ConfigChoiceRecordView {
            mode: self.mode@,
            current: value::opt_view(self.current),
            historical: value::opt_view(self.historical),
            composition: value::opt_view(self.composition),
            layers: value::views(self.layers@),
        }
    }
}

impl Value for ConfigChoiceRecord {
    fn copy(&self) -> (r: Self) {
        ConfigChoiceRecord {
            mode: self.mode.copy(),
            current: value::copy_opt(&self.current),
            historical: value::copy_opt(&self.historical),
            composition: value::copy_opt(&self.composition),
            layers: value::copy_vec(&self.layers),
        }
    }

    fn same(&self, other: &Self) -> (r: bool) {
        self.mode.same(&other.mode)
            && value::same_opt(&self.current, &other.current)
            && value::same_opt(&self.historical, &other.historical)
            && value::same_opt(&self.composition, &other.composition)
            && value::same_vec(&self.layers, &other.layers)
    }
}

pub open spec fn no_choice() -> ConfigChoiceRecordView {
    ConfigChoiceRecordView {
        mode: Seq::empty(),
        current: None,
        historical: None,
        composition: None,
        layers: Seq::empty(),
    }
}

impl Default for ConfigChoiceRecord {
    fn default() -> (r: Self)
        ensures
            r@ == no_choice(),
    {
        ConfigChoiceRecord {
            mode: String::new(),
            current: None,
            historical: None,
            composition: None,
            layers: Vec::new(),
        }
    }
}

/// A committed branch: it continues from `frontier_seq`, and abandons what follows
/// up to its own transition.
#[derive(Debug, Clone, PartialEq, Eq)]
pub struct BranchRecord {
    pub id: Id128,
    pub from: Option<Id128>,
    pub frontier_seq: u64,
    pub transition_seq: u64,
    pub follow: MemoryFollow,
    pub config_choice: ConfigChoiceRecord,
    pub quiesce: QuiesceRecord,
}

pub struct BranchRecordView {
    pub id: Seq<char>,
    pub from: Option<Seq<char>>,
    pub frontier_seq: u64,
    pub transition_seq: u64,
    pub follow: MemoryFollowView,
    pub config_choice: ConfigChoiceRecordView,
    pub quiesce: QuiesceRecordView,
}

impl View for BranchRecord {
    type V = BranchRecordView;

    open spec fn view(&self) -> BranchRecordView {
        BranchRecordView {
            id: self.id@,
            from: value::opt_view(self.from),
            frontier_seq: self.frontier_seq,
            transition_seq: self.transition_seq,
            follow: self.follow@,
            config_choice: self.config_choice@,
            quiesce: self.quiesce@,
        }
    }
}

impl Value for BranchRecord {
    fn copy(&self) -> (r: Self) {
        BranchRecord {
            id: self.id.copy(),
            from: value::copy_opt(&self.from),
            frontier_seq: self.frontier_seq,
            transition_seq: self.transition_seq,
            follow: self.follow.copy(),
            config_choice: self.config_choice.copy(),
            quiesce: self.quiesce.copy(),
        }
    }

    fn same(&self, other: &Self) -> (r: bool) {
        self.id.same(&other.id)
            && value::same_opt(&self.from, &other.from)
            && self.frontier_seq == other.frontier_seq
            && self.transition_seq == other.transition_seq
            && self.follow.same(&other.follow)
            && self.config_choice.same(&other.config_choice)
            && self.quiesce.same(&other.quiesce)
    }
}

/// The current branch, all transitions so far, and the pinned memory.
#[derive(Debug, Clone, PartialEq, Eq)]
pub struct BranchState {
    pub branch: Id128,
    pub records: Vec<BranchRecord>,
    pub pinned: Option<PinnedRoots>,
}

pub struct BranchStateView {
    pub branch: Seq<char>,
    pub records: Seq<BranchRecordView>,
    pub pinned: Option<PinnedRootsView>,
}

impl View for BranchState {
    type V = BranchStateView;

    open spec fn view(&self) -> BranchStateView {
        BranchStateView {
            branch: self.branch@,
            records: value::views(self.records@),
            pinned: value::opt_view(self.pinned),
        }
    }
}

// ---------- the path ----------

/// The transition abandoned the event.
pub open spec fn abandons(r: BranchRecordView, seq: u64) -> bool {
    r.frontier_seq < seq <= r.transition_seq
}

/// The event is on the path of the current branch: no transition abandoned
/// it.
pub open spec fn is_on_path(records: Seq<BranchRecordView>, seq: u64) -> bool {
    forall|i: int| 0 <= i < records.len() ==> !abandons(#[trigger] records[i], seq)
}

/// Where the `i`-th stretch of the path starts: behind the transition before
/// it.
pub open spec fn stretch_start(records: Seq<BranchRecordView>, i: int) -> u64 {
    if i == 0 {
        1
    } else {
        (records[i - 1].transition_seq + 1) as u64
    }
}

/// Where it ends: at the frontier of the next transition.
pub open spec fn stretch_end(records: Seq<BranchRecordView>, i: int) -> u64 {
    if i < records.len() {
        records[i].frontier_seq
    } else {
        u64::MAX
    }
}

/// The stretches of the path, both ends within.
pub open spec fn stretches(records: Seq<BranchRecordView>) -> Seq<(u64, u64)> {
    Seq::new(
        records.len() + 1,
        |i: int| (stretch_start(records, i), stretch_end(records, i)),
    )
}

/// No transition stands at the very last seq.
pub open spec fn room_after(records: Seq<BranchRecordView>) -> bool {
    forall|i: int| 0 <= i < records.len() ==> (#[trigger] records[i]).transition_seq < u64::MAX
}

impl BranchState {
    /// Whether the event at `seq` is on the current branch's path. The
    /// checkpoint at a frontier stays on it; the transition itself does not.
    pub fn on_path(&self, seq: u64) -> (r: bool)
        ensures
            r == is_on_path(self@.records, seq),
    {
        let ghost all = value::views(self.records@);
        let mut i: usize = 0;
        while i < self.records.len()
            invariant
                i <= self.records.len(),
                all == value::views(self.records@),
                forall|j: int| 0 <= j < i ==> !abandons(#[trigger] all[j], seq),
            decreases self.records.len() - i,
        {
            assert(all[i as int] == self.records@[i as int]@);
            if self.records[i].frontier_seq < seq && seq <= self.records[i].transition_seq {
                assert(abandons(all[i as int], seq));
                return false;
            }
            i = i + 1;
        }
        true
    }

    /// The stretches of the current branch's path.
    pub fn path_ranges(&self) -> (r: Vec<(u64, u64)>)
        requires
            room_after(self@.records),
        ensures
            r@ == stretches(self@.records),
    {
        let ghost all = value::views(self.records@);
        let mut out: Vec<(u64, u64)> = Vec::new();
        let mut start: u64 = 1;
        let mut i: usize = 0;
        while i < self.records.len()
            invariant
                i <= self.records.len(),
                all == value::views(self.records@),
                room_after(all),
                start == stretch_start(all, i as int),
                out@ == stretches(all).take(i as int),
            decreases self.records.len() - i,
        {
            assert(all[i as int] == self.records@[i as int]@);
            out.push((start, self.records[i].frontier_seq));
            start = self.records[i].transition_seq + 1;
            assert(stretches(all).take(i + 1) =~= stretches(all).take(i as int).push(
                stretches(all)[i as int],
            ));
            i = i + 1;
        }
        out.push((start, u64::MAX));
        assert(out@ =~= stretches(all));
        out
    }
}

/// Every event on the path lies in one of its stretches.
pub proof fn law_stretches_cover_the_path(records: Seq<BranchRecordView>, seq: u64) -> (i: int)
    requires
        room_after(records),
        is_on_path(records, seq),
        seq >= 1,
    ensures
        0 <= i <= records.len(),
        stretches(records)[i].0 <= seq <= stretches(records)[i].1,
{
    lemma_stretch_from(records, seq, 0)
}

proof fn lemma_stretch_from(records: Seq<BranchRecordView>, seq: u64, k: int) -> (i: int)
    requires
        room_after(records),
        is_on_path(records, seq),
        0 <= k <= records.len(),
        stretch_start(records, k) <= seq,
    ensures
        k <= i <= records.len(),
        stretch_start(records, i) <= seq <= stretch_end(records, i),
    decreases records.len() - k,
{
    if k == records.len() || seq <= records[k].frontier_seq {
        k
    } else {
        assert(!abandons(records[k], seq));
        lemma_stretch_from(records, seq, k + 1)
    }
}

/// Frontiers and transitions ascend: every branch continues from a checkpoint
/// that is no older than the one before it.
pub open spec fn ascending(records: Seq<BranchRecordView>) -> bool {
    &&& forall|i: int, j: int|
        0 <= i <= j < records.len() ==> (#[trigger] records[i]).frontier_seq <= (
        #[trigger] records[j]).frontier_seq
    &&& forall|i: int, j: int|
        0 <= i <= j < records.len() ==> (#[trigger] records[i]).transition_seq <= (
        #[trigger] records[j]).transition_seq
}

/// Where branches ascend, the stretches hold exactly the events on the path.
pub proof fn law_stretches_are_the_path(records: Seq<BranchRecordView>, seq: u64, i: int)
    requires
        room_after(records),
        ascending(records),
        0 <= i <= records.len(),
        stretches(records)[i].0 <= seq <= stretches(records)[i].1,
    ensures
        is_on_path(records, seq),
{
    assert forall|j: int| 0 <= j < records.len() implies !abandons(#[trigger] records[j], seq) by {
        if j < i {
            assert(records[j].transition_seq <= records[i - 1].transition_seq);
        } else {
            assert(records[i].frontier_seq <= records[j].frontier_seq);
        }
    }
}

/// A transition is not on the path of the branch that it makes.
pub proof fn law_transitions_are_off_path(records: Seq<BranchRecordView>, i: int)
    requires
        0 <= i < records.len(),
        records[i].frontier_seq < records[i].transition_seq,
    ensures
        !is_on_path(records, records[i].transition_seq),
{
    assert(abandons(records[i], records[i].transition_seq));
}

// ---------- checkpoints ----------

/// The record of a checkpoint: its own seq is the frontier.
pub open spec fn checkpoint_record(
    label: Option<Seq<char>>,
    seq: u64,
    snapshot: Seq<char>,
    memory_root: Option<Seq<char>>,
    project_memory_root: Option<Seq<char>>,
    composition: Seq<char>,
    branch: Seq<char>,
) -> EventView {
    event::document(
        "checkpoint_created"@,
        JsonView::Object(json::fields7(json::fv("label"@, json::text_or_null(label)), json::fv("frontier_seq"@, JsonView::Unsigned(seq)), json::fv("snapshot"@, JsonView::Text(snapshot)), json::fv("memory_root"@, json::text_or_null(memory_root)), json::fv("project_memory_root"@, json::text_or_null(project_memory_root)), json::fv("composition"@, JsonView::Text(composition)), json::fv("branch"@, JsonView::Text(branch)))),
    )
}

impl BranchState {
    /// The event of a checkpoint at the next seq; a label that is too long is
    /// refused.
    pub fn create_checkpoint(
        &self,
        label: &Option<String>,
        next_seq: u64,
        snapshot: &Digest,
        memory_root: &Option<Digest>,
        project_memory_root: &Option<Digest>,
        composition: &Digest,
    ) -> (r: Result<Event, SessionError>)
        ensures
            match r {
                Ok(e) => {
                    &&& (label matches Some(l) ==> l@.len() <= CHECKPOINT_LABEL_MAX)
                    &&& e@ == checkpoint_record(
                        value::opt_view(*label),
                        next_seq,
                        snapshot@,
                        value::opt_view(*memory_root),
                        value::opt_view(*project_memory_root),
                        composition@,
                        self@.branch,
                    )
                },
                Err(e) => {
                    &&& (label matches Some(l) && l@.len() > CHECKPOINT_LABEL_MAX)
                    &&& e@ == session_error::invalid("checkpoint label exceeds 200 characters"@)
                },
            },
    {
        if let Some(l) = label {
            if l.as_str().unicode_len() > CHECKPOINT_LABEL_MAX {
                return Err(
                    SessionError::InvalidInput(
                        "checkpoint label exceeds 200 characters".to_owned(),
                    ),
                );
            }
        }
        let f = json::field(json::no_fields(), "label", json::string_or_null(label));
        let f = json::field(f, "frontier_seq", Json::Unsigned(next_seq));
        let f = json::field(f, "snapshot", json::text_json(snapshot.text.as_str()));
        let f = json::field(f, "memory_root", json::digest_or_null(memory_root));
        let f = json::field(f, "project_memory_root", json::digest_or_null(project_memory_root));
        let f = json::field(f, "composition", json::text_json(composition.text.as_str()));
        let f = json::field(f, "branch", json::text_json(self.branch.text.as_str()));
        Ok(event::document_event("checkpoint_created", json::record(f)))
    }
}

/// What a checkpoint in the log pins.
#[derive(Debug, Clone, PartialEq, Eq)]
pub struct CheckpointEvent {
    pub id: String,
    pub snapshot: Digest,
    pub memory_root: Option<Digest>,
    pub project_memory_root: Option<Digest>,
}

pub struct CheckpointEventView {
    pub id: Seq<char>,
    pub snapshot: Seq<char>,
    pub memory_root: Option<Seq<char>>,
    pub project_memory_root: Option<Seq<char>>,
}

impl View for CheckpointEvent {
    type V = CheckpointEventView;

    open spec fn view(&self) -> CheckpointEventView {
        CheckpointEventView {
            id: self.id@,
            snapshot: self.snapshot@,
            memory_root: value::opt_view(self.memory_root),
            project_memory_root: value::opt_view(self.project_memory_root),
        }
    }
}

/// The record at a seq. Where there are several, that of the latest frame, and
/// the first one within a frame.
pub open spec fn record_at(log: Seq<LogRecordView>, seq: u64) -> Option<LogRecordView>
    decreases log.len(),
{
    if log.len() == 0 {
        None
    } else if log.last().seq == seq {
        match record_at(log.drop_last(), seq) {
            Some(x) => if x.frame == log.last().frame {
                Some(x)
            } else {
                Some(log.last())
            },
            None => Some(log.last()),
        }
    } else {
        record_at(log.drop_last(), seq)
    }
}

pub open spec fn numbered(before: Seq<char>, n: u64, after: Seq<char>) -> Seq<char> {
    before + text::decimal(n as nat) + after
}

/// What the checkpoint pins, or the first thing that is wrong with it: the
/// session, the seq, the event, its frontier, its snapshot.
pub open spec fn checkpoint_event(
    checkpoint: CheckpointRefView,
    session: Seq<char>,
    next_seq: u64,
    log: Seq<LogRecordView>,
    codec: CodecView,
) -> Result<CheckpointEventView, SessionErrorView> {
    if checkpoint.session_id != session {
        Err(session_error::invalid("checkpoint belongs to a different session"@))
    } else if checkpoint.seq == 0 || checkpoint.seq >= next_seq {
        Err(
            session_error::invalid(
                numbered("checkpoint seq "@, checkpoint.seq, " is not a committed event"@),
            ),
        )
    } else {
        match record_at(log, checkpoint.seq) {
            None => Err(session_error::invalid(numbered("no event at seq "@, checkpoint.seq, ""@))),
            Some(r) => if r.kind != "checkpoint_created"@ || json::unsigned_member(
                r.payload,
                "frontier_seq"@,
            ) != Some(checkpoint.seq) {
                Err(
                    session_error::invalid(
                        numbered("event at seq "@, checkpoint.seq, " is not a checkpoint"@),
                    ),
                )
            } else {
                match event::digest_member(codec, r.payload, "snapshot"@) {
                    None => Err(
                        session_error::invalid(
                            numbered("checkpoint at seq "@, checkpoint.seq, " pins no snapshot"@),
                        ),
                    ),
                    Some(snapshot) => Ok(
                        CheckpointEventView {
                            id: r.id,
                            snapshot,
                            memory_root: event::digest_member(codec, r.payload, "memory_root"@),
                            project_memory_root: event::digest_member(
                                codec,
                                r.payload,
                                "project_memory_root"@,
                            ),
                        },
                    ),
                }
            },
        }
    }
}

fn numbered_text(before: &str, n: u64, after: &str) -> (r: String)
    ensures
        r@ == numbered(before@, n, after@),
{
    text::cat3(before, text::decimal_text(n).as_str(), after)
}

/// The record at `seq`, which must be there.
pub fn envelope_at(log: &Vec<LogRecord>, seq: u64) -> (r: Result<LogRecord, SessionError>)
    ensures
        match r {
            Ok(x) => record_at(value::views(log@), seq) == Some(x@),
            Err(e) => record_at(value::views(log@), seq) is None && e@ == session_error::invalid(
                numbered("no event at seq "@, seq, ""@),
            ),
        },
{
    let ghost all = value::views(log@);
    let mut found: Option<usize> = None;
    let mut i: usize = 0;
    assert(all.take(0) =~= Seq::empty());
    while i < log.len()
        invariant
            i <= log.len(),
            all == value::views(log@),
            match found {
                Some(k) => k < i && record_at(all.take(i as int), seq) == Some(all[k as int]),
                None => record_at(all.take(i as int), seq) is None,
            },
        decreases log.len() - i,
    {
        proof {
            assert(all.take(i + 1).last() == log@[i as int]@);
            assert(all.take(i + 1).drop_last() =~= all.take(i as int));
        }
        if log[i].seq == seq {
            let kept = match found {
                Some(k) => log[k].frame == log[i].frame,
                None => false,
            };
            if !kept {
                found = Some(i);
            }
        }
        i = i + 1;
    }
    assert(all.take(i as int) =~= all);
    match found {
        Some(k) => Ok(log[k].copy()),
        None => Err(SessionError::InvalidInput(numbered_text("no event at seq ", seq, ""))),
    }
}

/// Validates a checkpoint against the log.
pub fn read_checkpoint(
    checkpoint: &CheckpointRef,
    session: &Id128,
    next_seq: u64,
    log: &Vec<LogRecord>,
    codec: &Codec,
) -> (r: Result<CheckpointEvent, SessionError>)
    ensures
        ({
            let found = checkpoint_event(
                checkpoint@,
                session@,
                next_seq,
                value::views(log@),
                codec@,
            );
            match r {
                Ok(c) => found == Ok::<CheckpointEventView, SessionErrorView>(c@),
                Err(e) => found == Err::<CheckpointEventView, SessionErrorView>(e@),
            }
        }),
{
    if !checkpoint.session_id.same(session) {
        return Err(
            SessionError::InvalidInput("checkpoint belongs to a different session".to_owned()),
        );
    }
    let seq: u64 = checkpoint.seq;
    if seq == 0 || seq >= next_seq {
        return Err(
            SessionError::InvalidInput(
                numbered_text("checkpoint seq ", seq, " is not a committed event"),
            ),
        );
    }
    let record = match envelope_at(log, seq) {
        Ok(x) => x,
        Err(e) => return Err(e),
    };
    let frontier = match record.payload.get_unsigned("frontier_seq") {
        Some(n) => n == seq,
        None => false,
    };
    if !text::same_text(record.kind.as_str(), "checkpoint_created") || !frontier {
        return Err(
            SessionError::InvalidInput(numbered_text("event at seq ", seq, " is not a checkpoint")),
        );
    }
    match codec.digest_in(&record.payload, "snapshot") {
        None => Err(
            SessionError::InvalidInput(
                numbered_text("checkpoint at seq ", seq, " pins no snapshot"),
            ),
        ),
        Some(snapshot) => {
            let memory_root = codec.digest_in(&record.payload, "memory_root");
            let project_memory_root = codec.digest_in(&record.payload, "project_memory_root");
            Ok(
                CheckpointEvent { id: record.id, snapshot, memory_root, project_memory_root },
            )
        },
    }
}

/// How a pinned snapshot failed.
#[derive(Debug, Clone, PartialEq, Eq)]
pub enum SnapshotFault {
    Unreadable(String),
    NotAManifest(String),
    Closure(String),
}

pub open spec fn snapshot_error(snapshot: Seq<char>, fault: SnapshotFault) -> SessionErrorView {
    SessionErrorView::Snapshot(
        match fault {
            SnapshotFault::Unreadable(e) => "checkpoint snapshot "@ + snapshot + " unreadable: "@
                + e@,
            SnapshotFault::NotAManifest(e) => "checkpoint snapshot "@ + snapshot
                + " is not a manifest: "@ + e@,
            SnapshotFault::Closure(e) => "checkpoint snapshot closure failed: "@ + e@,
        },
    )
}

/// What memory a continuation follows: the roots that the checkpoint pinned,
/// which the memory must know; the heads where it pinned none.
pub open spec fn checkpoint_follow(
    c: CheckpointEventView,
    fault: Option<SnapshotFault>,
    knows_lifetime: bool,
    knows_project: bool,
) -> Result<MemoryFollowView, SessionErrorView> {
    match fault {
        Some(f) => Err(snapshot_error(c.snapshot, f)),
        None => match c.memory_root {
            None => Ok(MemoryFollowView::FollowHead),
            Some(root) => if !knows_lifetime {
                Err(
                    session_error::invalid(
                        "checkpoint pins memory root "@ + root + " unknown to the lifetime actor"@,
                    ),
                )
            } else if c.project_memory_root is Some && !knows_project {
                Err(
                    session_error::invalid(
                        "checkpoint pins project memory root "@ + c.project_memory_root->0
                            + " unknown to the project actor"@,
                    ),
                )
            } else {
                Ok(
                    MemoryFollowView::PinnedAt {
                        lifetime_root: root,
                        project_root: c.project_memory_root,
                    },
                )
            },
        },
    }
}

/// Validates what a checkpoint pins. `fault` is what was wrong with the
/// snapshot and its closure; `knows_lifetime` and `knows_project` say whether
/// the memory knows the pinned roots.
pub fn validate_checkpoint(
    c: &CheckpointEvent,
    fault: Option<SnapshotFault>,
    knows_lifetime: bool,
    knows_project: bool,
) -> (r: Result<MemoryFollow, SessionError>)
    ensures
        ({
            let follow = checkpoint_follow(c@, fault, knows_lifetime, knows_project);
            match r {
                Ok(f) => follow == Ok::<MemoryFollowView, SessionErrorView>(f@),
                Err(e) => follow == Err::<MemoryFollowView, SessionErrorView>(e@),
            }
        }),
{
    if let Some(f) = fault {
        let t = match f {
            SnapshotFault::Unreadable(e) => {
                let mut t = text::cat3(
                    "checkpoint snapshot ",
                    c.snapshot.text.as_str(),
                    " unreadable: ",
                );
                t.append(e.as_str());
                t
            },
            SnapshotFault::NotAManifest(e) => {
                let mut t = text::cat3(
                    "checkpoint snapshot ",
                    c.snapshot.text.as_str(),
                    " is not a manifest: ",
                );
                t.append(e.as_str());
                t
            },
            SnapshotFault::Closure(e) => text::cat2(
                "checkpoint snapshot closure failed: ",
                e.as_str(),
            ),
        };
        return Err(SessionError::Snapshot(t));
    }
    match &c.memory_root {
        None => Ok(MemoryFollow::FollowHead),
        Some(root) => {
            if !knows_lifetime {
                return Err(
                    SessionError::InvalidInput(
                        text::cat3(
                            "checkpoint pins memory root ",
                            root.text.as_str(),
                            " unknown to the lifetime actor",
                        ),
                    ),
                );
            }
            if let Some(project) = &c.project_memory_root {
                if !knows_project {
                    return Err(
                        SessionError::InvalidInput(
                            text::cat3(
                                "checkpoint pins project memory root ",
                                project.text.as_str(),
                                " unknown to the project actor",
                            ),
                        ),
                    );
                }
            }
            Ok(
                MemoryFollow::PinnedAt {
                    lifetime_root: root.copy(),
                    project_root: value::copy_opt(&c.project_memory_root),
                },
            )
        },
    }
}

// ---------- transitions ----------

/// The classified intents behind the frontier and before the transition.
pub open spec fn in_tail(s: Seq<QuiescedIntentView>, frontier: u64, transition: u64) -> Seq<
    QuiescedIntentView,
>
    decreases s.len(),
{
    if s.len() == 0 {
        Seq::empty()
    } else {
        let rest = in_tail(s.drop_last(), frontier, transition);
        if frontier < s.last().seq < transition {
            rest.push(s.last())
        } else {
            rest
        }
    }
}

/// A pending intent as a transition lists it.
pub open spec fn listed(p: intents::PendingIntentView) -> QuiescedIntentView {
    QuiescedIntentView { seq: p.seq, kind: p.kind, id: p.id }
}

/// What a transition from `frontier` leaves behind.
pub open spec fn quiesced(log: Seq<LogRecordView>, frontier: u64, transition: u64) -> QuiesceRecordView {
    QuiesceRecordView {
        cancelled: intents::pending(log).map_values(
            |p: intents::PendingIntentView| listed(p),
        ),
        ambiguous: in_tail(intents::classified(log), frontier, transition),
    }
}

fn tail_of(s: Vec<QuiescedIntent>, frontier: u64, transition: u64) -> (r: Vec<QuiescedIntent>)
    ensures
        value::views(r@) == in_tail(value::views(s@), frontier, transition),
{
    let ghost all = value::views(s@);
    let mut out: Vec<QuiescedIntent> = Vec::new();
    let mut i: usize = 0;
    assert(all.take(0) =~= Seq::empty());
    while i < s.len()
        invariant
            i <= s.len(),
            all == value::views(s@),
            value::views(out@) == in_tail(all.take(i as int), frontier, transition),
        decreases s.len() - i,
    {
        proof {
            assert(all.take(i + 1).last() == s@[i as int]@);
            assert(all.take(i + 1).drop_last() =~= all.take(i as int));
        }
        if frontier < s[i].seq && s[i].seq < transition {
            out.push(s[i].copy());
        }
        i = i + 1;
    }
    assert(all.take(i as int) =~= all);
    out
}

/// Lists what a transition from `frontier` at `transition` leaves behind.
pub fn quiesce(log: &Vec<LogRecord>, frontier: u64, transition: u64) -> (r: QuiesceRecord)
    ensures
        r@ == quiesced(value::views(log@), frontier, transition),
{
    let open = intents::scan_pending_intents(log);
    let ghost all = value::views(open@).map_values(|p: intents::PendingIntentView| listed(p));
    let mut cancelled: Vec<QuiescedIntent> = Vec::new();
    let mut i: usize = 0;
    assert(value::views(cancelled@) =~= all.take(0));
    while i < open.len()
        invariant
            i <= open.len(),
            all == value::views(open@).map_values(|p: intents::PendingIntentView| listed(p)),
            value::views(cancelled@) == all.take(i as int),
        decreases open.len() - i,
    {
        cancelled.push(
            QuiescedIntent {
                seq: open[i].seq,
                kind: open[i].kind.clone(),
                id: open[i].id.clone(),
            },
        );
        assert(all.take(i + 1) =~= all.take(i as int).push(all[i as int]));
        i = i + 1;
    }
    assert(all.take(i as int) =~= all);
    let ambiguous = tail_of(intents::scan_classified_intents(log), frontier, transition);
    QuiesceRecord { cancelled, ambiguous }
}

pub open spec fn quiesced_json(q: QuiescedIntentView) -> JsonView {
    JsonView::Object(json::fields3(json::fv("seq"@, JsonView::Unsigned(q.seq)), json::fv("kind"@, JsonView::Text(q.kind)), json::fv("id"@, JsonView::Text(q.id))))
}

pub open spec fn quiesce_json(q: QuiesceRecordView) -> JsonView {
    JsonView::Object(json::fields2(json::fv("cancelled"@, JsonView::List(q.cancelled.map_values(|x: QuiescedIntentView| quiesced_json(x)))), json::fv("ambiguous"@, JsonView::List(q.ambiguous.map_values(|x: QuiescedIntentView| quiesced_json(x))))))
}

pub open spec fn choice_json(c: ConfigChoiceRecordView) -> JsonView {
    JsonView::Object(json::fields5(json::fv("mode"@, JsonView::Text(c.mode)), json::fv("current"@, json::text_or_null(c.current)), json::fv("historical"@, json::text_or_null(c.historical)), json::fv("composition"@, json::text_or_null(c.composition)), json::fv("layers"@, json::text_list(c.layers))))
}

fn quiesced_list(all: &Vec<QuiescedIntent>) -> (r: Json)
    ensures
        r@ == JsonView::List(
            value::views(all@).map_values(|x: QuiescedIntentView| quiesced_json(x)),
        ),
{
    let ghost docs = value::views(all@).map_values(|x: QuiescedIntentView| quiesced_json(x));
    let mut out: Vec<Json> = Vec::new();
    let mut i: usize = 0;
    assert(value::views(out@) =~= docs.take(0));
    while i < all.len()
        invariant
            i <= all.len(),
            docs == value::views(all@).map_values(|x: QuiescedIntentView| quiesced_json(x)),
            value::views(out@) == docs.take(i as int),
        decreases all.len() - i,
    {
        let x = &all[i];
        let f = json::field(json::no_fields(), "seq", Json::Unsigned(x.seq));
        let f = json::field(f, "kind", json::text_json(x.kind.as_str()));
        let f = json::field(f, "id", json::text_json(x.id.as_str()));
        let doc = json::record(f);
        assert(doc@ == quiesced_json(x@));
        out.push(doc);
        assert(docs.take(i + 1) =~= docs.take(i as int).push(docs[i as int]));
        i = i + 1;
    }
    assert(docs.take(i as int) =~= docs);
    json::list(out)
}

impl QuiesceRecord {
    /// The document of the record.
    pub fn encode(&self) -> (r: Json)
        ensures
            r@ == quiesce_json(self@),
    {
        let f = json::field(json::no_fields(), "cancelled", quiesced_list(&self.cancelled));
        let f = json::field(f, "ambiguous", quiesced_list(&self.ambiguous));
        json::record(f)
    }
}

impl ConfigChoiceRecord {
    /// The document of the record.
    pub fn encode(&self) -> (r: Json)
        ensures
            r@ == choice_json(self@),
    {
        let f = json::field(json::no_fields(), "mode", json::text_json(self.mode.as_str()));
        let f = json::field(f, "current", json::digest_or_null(&self.current));
        let f = json::field(f, "historical", json::digest_or_null(&self.historical));
        let f = json::field(f, "composition", json::digest_or_null(&self.composition));
        let f = json::field(f, "layers", json::digest_list(&self.layers));
        json::record(f)
    }
}

/// The branch that continues from a checkpoint.
pub open spec fn continuation(
    new_branch: Seq<char>,
    from: Seq<char>,
    checkpoint_seq: u64,
    transition_seq: u64,
    follow: MemoryFollowView,
    choice: ConfigChoiceRecordView,
    quiesce: QuiesceRecordView,
) -> BranchRecordView {
    BranchRecordView {
        id: new_branch,
        from: Some(from),
        frontier_seq: checkpoint_seq,
        transition_seq,
        follow,
        config_choice: choice,
        quiesce,
    }
}

/// The choice that a continuation records: the config stays as it is.
pub open spec fn current_choice(
    current: Option<Seq<char>>,
    historical: Option<Seq<char>>,
    composition: Seq<char>,
    layers: Seq<Seq<char>>,
) -> ConfigChoiceRecordView {
    ConfigChoiceRecordView {
        mode: "Current"@,
        current,
        historical,
        composition: Some(composition),
        layers,
    }
}

/// The choice that a continuation records. `current` is the live config,
/// `historical` the one that the checkpoint pinned.
pub fn choose_current(
    current: &Option<Digest>,
    historical: &Option<Digest>,
    composition: &Digest,
    layers: &Vec<Digest>,
) -> (r: ConfigChoiceRecord)
    ensures
        r@ == current_choice(
            value::opt_view(*current),
            value::opt_view(*historical),
            composition@,
            value::views(layers@),
        ),
{
    ConfigChoiceRecord {
        mode: "Current".to_owned(),
        current: value::copy_opt(current),
        historical: value::copy_opt(historical),
        composition: Some(composition.copy()),
        layers: value::copy_vec(layers),
    }
}

/// The record of a transition; `follow` is the policy's own document.
pub open spec fn transition_record(
    record: BranchRecordView,
    c: CheckpointEventView,
    follow: JsonView,
) -> EventView {
    event::document(
        "branch_transition"@,
        JsonView::Object(json::fields7(json::fv("branch"@, JsonView::Text(record.id)), json::fv("from_branch"@, json::text_or_null(record.from)), json::fv("frontier_seq"@, JsonView::Unsigned(record.frontier_seq)), json::fv("checkpoint_event"@, JsonView::Text(c.id)), json::fv("checkpoint_snapshot"@, JsonView::Text(c.snapshot)), json::fv("follow"@, follow), json::fv("config_choice"@, choice_json(record.config_choice))).push(json::fv("quiesce"@, quiesce_json(record.quiesce))).push(json::fv("memory_root"@, json::text_or_null(c.memory_root))).push(json::fv("project_memory_root"@, json::text_or_null(c.project_memory_root)))),
    )
}

/// What a checkpoint pins a branch to.
pub open spec fn pins_of(memory_root: Option<Seq<char>>, project_root: Option<Seq<char>>) -> Option<
    PinnedRootsView,
> {
    match memory_root {
        Some(lifetime) => Some(PinnedRootsView { lifetime, project: project_root }),
        None => None,
    }
}

/// What a policy pins a branch to.
pub open spec fn pins_under(follow: MemoryFollowView) -> Option<PinnedRootsView> {
    match follow {
        MemoryFollowView::FollowHead => None,
        MemoryFollowView::PinnedAt { lifetime_root, project_root } => Some(
            PinnedRootsView { lifetime: lifetime_root, project: project_root },
        ),
    }
}

impl BranchState {
    /// The event of a transition, and the branch it makes. The branch becomes
    /// the current one when the event is committed: see [`Self::continued`].
    pub fn continue_from(
        &self,
        checkpoint: &CheckpointRef,
        c: &CheckpointEvent,
        new_branch: Id128,
        next_seq: u64,
        follow: MemoryFollow,
        follow_document: &Json,
        choice: ConfigChoiceRecord,
        log: &Vec<LogRecord>,
    ) -> (r: (Event, BranchRecord))
        ensures
            r.1@ == continuation(
                new_branch@,
                self@.branch,
                checkpoint@.seq,
                next_seq,
                follow@,
                choice@,
                quiesced(value::views(log@), checkpoint@.seq, next_seq),
            ),
            r.0@ == transition_record(r.1@, c@, follow_document@),
    {
        let quiesce = quiesce(log, checkpoint.seq, next_seq);
        let record = BranchRecord {
            id: new_branch,
            from: Some(self.branch.copy()),
            frontier_seq: checkpoint.seq,
            transition_seq: next_seq,
            follow,
            config_choice: choice,
            quiesce,
        };
        let f = json::field(json::no_fields(), "branch", json::text_json(record.id.text.as_str()));
        let f = json::field(f, "from_branch", json::id_or_null(&record.from));
        let f = json::field(f, "frontier_seq", Json::Unsigned(record.frontier_seq));
        let f = json::field(f, "checkpoint_event", json::text_json(c.id.as_str()));
        let f = json::field(f, "checkpoint_snapshot", json::text_json(c.snapshot.text.as_str()));
        let f = json::field(f, "follow", follow_document.copy());
        let f = json::field(f, "config_choice", record.config_choice.encode());
        let f = json::field(f, "quiesce", record.quiesce.encode());
        let f = json::field(f, "memory_root", json::digest_or_null(&c.memory_root));
        let f = json::field(f, "project_memory_root", json::digest_or_null(&c.project_memory_root));
        (event::document_event("branch_transition", json::record(f)), record)
    }

    /// The transition was committed: the session is on the new branch, pinned
    /// to what the checkpoint pinned.
    pub fn continued(&mut self, record: BranchRecord, c: &CheckpointEvent)
        ensures
            final(self)@ == (BranchStateView {
                branch: record@.id,
                records: old(self)@.records.push(record@),
                pinned: pins_of(c@.memory_root, c@.project_memory_root),
            }),
            c@.memory_root matches Some(l) ==> (final(self)@.pinned matches Some(p) && p.lifetime
                == l && p.project == c@.project_memory_root),
            c@.memory_root is None ==> final(self)@.pinned is None,
    {
        self.branch = record.id.copy();
        self.records.push(record);
        self.pinned = match &c.memory_root {
            Some(root) => Some(
                PinnedRoots {
                    lifetime: root.copy(),
                    project: value::copy_opt(&c.project_memory_root),
                },
            ),
            None => None,
        };
    }
}

// ---------- memory follow ----------

/// Why a policy is refused: it pins a root that the memory does not know.
pub open spec fn follow_error(
    policy: MemoryFollowView,
    knows_lifetime: bool,
    knows_project: bool,
) -> Option<SessionErrorView> {
    match policy {
        MemoryFollowView::FollowHead => None,
        MemoryFollowView::PinnedAt { lifetime_root, project_root } => if !knows_lifetime {
            Some(
                session_error::invalid(
                    "pinned lifetime root "@ + lifetime_root + " is not a committed root"@,
                ),
            )
        } else if project_root is Some && !knows_project {
            Some(
                session_error::invalid(
                    "pinned project root "@ + project_root->0 + " is not a committed root"@,
                ),
            )
        } else {
            None
        },
    }
}

pub open spec fn follow_record(policy: JsonView, at: u64) -> EventView {
    event::document(
        "memory_follow_changed"@,
        JsonView::Object(json::fields2(json::fv("policy"@, policy), json::fv("at"@, JsonView::Unsigned(at)))),
    )
}

/// The event of a change of policy, or why it is refused.
pub fn memory_follow(
    policy: &MemoryFollow,
    policy_document: &Json,
    knows_lifetime: bool,
    knows_project: bool,
    next_seq: u64,
) -> (r: Result<Event, SessionError>)
    ensures
        value::failure(r) == follow_error(policy@, knows_lifetime, knows_project),
        r matches Ok(e) ==> e@ == follow_record(policy_document@, next_seq),
{
    if let MemoryFollow::PinnedAt { lifetime_root, project_root } = policy {
        if !knows_lifetime {
            return Err(
                SessionError::InvalidInput(
                    text::cat3(
                        "pinned lifetime root ",
                        lifetime_root.text.as_str(),
                        " is not a committed root",
                    ),
                ),
            );
        }
        if let Some(project) = project_root {
            if !knows_project {
                return Err(
                    SessionError::InvalidInput(
                        text::cat3(
                            "pinned project root ",
                            project.text.as_str(),
                            " is not a committed root",
                        ),
                    ),
                );
            }
        }
    }
    let f = json::field(json::no_fields(), "policy", policy_document.copy());
    let f = json::field(f, "at", Json::Unsigned(next_seq));
    Ok(event::document_event("memory_follow_changed", json::record(f)))
}

impl BranchState {
    /// The change of policy was committed.
    pub fn follow_changed(&mut self, policy: &MemoryFollow)
        ensures
            final(self)@ == (BranchStateView { pinned: pins_under(policy@), ..old(self)@ }),
    {
        self.pinned = match policy {
            MemoryFollow::FollowHead => None,
            MemoryFollow::PinnedAt { lifetime_root, project_root } => Some(
                PinnedRoots {
                    lifetime: lifetime_root.copy(),
                    project: value::copy_opt(project_root),
                },
            ),
        };
    }
}

// ---------- the config at a point ----------

/// A config layer: the module it is of, and its package.
#[derive(Debug, Clone, PartialEq, Eq)]
pub struct ConfigLayerAt {
    pub key: String,
    pub package: Digest,
}

pub struct ConfigLayerAtView {
    pub key: Seq<char>,
    pub package: Seq<char>,
}

impl View for ConfigLayerAt {
    type V = ConfigLayerAtView;

    open spec fn view(&self) -> ConfigLayerAtView {
        ConfigLayerAtView {
            key: self.key@,
            package: self.package@,
        }
    }
}

impl Value for ConfigLayerAt {
    fn copy(&self) -> (r: Self) {
        ConfigLayerAt {
            key: self.key.copy(),
            package: self.package.copy(),
        }
    }

    fn same(&self, other: &Self) -> (r: bool) {
        self.key.same(&other.key)
            && self.package.same(&other.package)
    }
}

/// The layers without those of a module.
pub open spec fn layers_without(s: Seq<ConfigLayerAtView>, key: Seq<char>) -> Seq<ConfigLayerAtView>
    decreases s.len(),
{
    if s.len() == 0 {
        s
    } else if s.last().key == key {
        layers_without(s.drop_last(), key)
    } else {
        layers_without(s.drop_last(), key).push(s.last())
    }
}

/// Where a module's layer is; the length if it has none.
pub open spec fn layer_place(s: Seq<ConfigLayerAtView>, key: Seq<char>) -> int
    decreases s.len(),
{
    if s.len() == 0 || s[0].key == key {
        0
    } else {
        1 + layer_place(s.drop_first(), key)
    }
}

/// A layer replaces that of its module in place, or goes on top.
pub open spec fn layer_put(s: Seq<ConfigLayerAtView>, l: ConfigLayerAtView) -> Seq<
    ConfigLayerAtView,
> {
    let p = layer_place(s, l.key);
    if p < s.len() {
        s.update(p, ConfigLayerAtView { package: l.package, ..s[p] })
    } else {
        s.push(l)
    }
}

/// The layer that an added item names; its package stands for a module that
/// is not named.
pub open spec fn added_layer(codec: CodecView, item: JsonView) -> Option<ConfigLayerAtView> {
    match event::digest_member(codec, item, "package"@) {
        Some(package) => Some(
            ConfigLayerAtView {
                key: match json::text_member(item, "module_id"@) {
                    Some(id) => id,
                    None => package,
                },
                package,
            },
        ),
        None => None,
    }
}

/// Whether an added item names the module's layer.
pub open spec fn names_layer(codec: CodecView, added: Seq<JsonView>, key: Seq<char>) -> bool {
    exists|k: int|
        0 <= k < added.len() && (added_layer(codec, #[trigger] added[k]) matches Some(l) && l.key
            == key)
}

/// The removals of a delta, one by one. A module that the delta adds again is
/// replaced, not removed: its layer keeps its place.
pub open spec fn removals(
    s: Seq<ConfigLayerAtView>,
    codec: CodecView,
    items: Seq<JsonView>,
    added: Seq<JsonView>,
) -> Seq<ConfigLayerAtView>
    decreases items.len(),
{
    if items.len() == 0 {
        s
    } else {
        let rest = removals(s, codec, items.drop_last(), added);
        match json::text_member(items.last(), "module_id"@) {
            Some(id) => if names_layer(codec, added, id) {
                rest
            } else {
                layers_without(rest, id)
            },
            None => rest,
        }
    }
}

/// The additions of a delta, one by one.
pub open spec fn additions(
    s: Seq<ConfigLayerAtView>,
    codec: CodecView,
    items: Seq<JsonView>,
) -> Seq<ConfigLayerAtView>
    decreases items.len(),
{
    if items.len() == 0 {
        s
    } else {
        let rest = additions(s, codec, items.drop_last());
        match added_layer(codec, items.last()) {
            Some(l) => layer_put(rest, l),
            None => rest,
        }
    }
}

/// The layers that a branch point listed: those texts that name digests.
pub open spec fn listed_layers(codec: CodecView, items: Seq<JsonView>) -> Seq<ConfigLayerAtView>
    decreases items.len(),
{
    if items.len() == 0 {
        Seq::empty()
    } else {
        let rest = listed_layers(codec, items.drop_last());
        match items.last() {
            JsonView::Text(t) => match event::digest_named(codec, t) {
                Some(d) => rest.push(ConfigLayerAtView { key: d, package: d }),
                None => rest,
            },
            _ => rest,
        }
    }
}

/// A branch point sets the stack to what it recorded: the whole stack where
/// it did, else the top alone.
pub open spec fn rebased(s: Seq<ConfigLayerAtView>, codec: CodecView, payload: JsonView) -> Seq<
    ConfigLayerAtView,
> {
    match json::member(payload, "config_choice"@) {
        None => s,
        Some(choice) => match json::member(choice, "layers"@) {
            Some(JsonView::List(items)) => listed_layers(codec, items),
            _ => match event::digest_member(codec, choice, "current"@) {
                Some(d) => Seq::empty().push(ConfigLayerAtView { key: d, package: d }),
                None => s,
            },
        },
    }
}

/// The items of a list, or none where the member is no list.
pub open spec fn items_of(m: Option<JsonView>) -> Seq<JsonView> {
    match m {
        Some(JsonView::List(items)) => items,
        _ => Seq::empty(),
    }
}

/// A change of the config: first what was removed, then what was added; a
/// module that is in both lists is updated in place.
pub open spec fn changed(s: Seq<ConfigLayerAtView>, codec: CodecView, payload: JsonView) -> Seq<
    ConfigLayerAtView,
> {
    if json::text_member(payload, "initiator"@) != Some("config"@) {
        s
    } else {
        match json::member(payload, "delta"@) {
            None => s,
            Some(delta) => {
                let removed = items_of(json::member(delta, "removed"@));
                let added = items_of(json::member(delta, "added"@));
                additions(removals(s, codec, removed, added), codec, added)
            },
        }
    }
}

/// The stack of layers after the records up to `at_seq`.
pub open spec fn stack_at(log: Seq<LogRecordView>, codec: CodecView, at_seq: u64) -> Seq<
    ConfigLayerAtView,
>
    decreases log.len(),
{
    if log.len() == 0 {
        Seq::empty()
    } else {
        let before = stack_at(log.drop_last(), codec, at_seq);
        let r = log.last();
        if r.seq > at_seq {
            before
        } else if r.kind == "branch_transition"@ {
            rebased(before, codec, r.payload)
        } else if r.kind == "composition_changed"@ {
            changed(before, codec, r.payload)
        } else {
            before
        }
    }
}

/// The packages of the layers, lowest first; none where no layer is active.
pub open spec fn choice_at(log: Seq<LogRecordView>, codec: CodecView, at_seq: u64) -> Option<
    Seq<Seq<char>>,
> {
    let stack = stack_at(log, codec, at_seq);
    if stack.len() == 0 {
        None
    } else {
        Some(stack.map_values(|l: ConfigLayerAtView| l.package))
    }
}

/// A module's layer is the first one with its key.
pub proof fn lemma_layer_place(s: Seq<ConfigLayerAtView>, key: Seq<char>, p: int)
    requires
        0 <= p <= s.len(),
        p < s.len() ==> s[p].key == key,
        forall|i: int| 0 <= i < p ==> (#[trigger] s[i]).key != key,
    ensures
        layer_place(s, key) == p,
    decreases s.len(),
{
    if s.len() > 0 && p > 0 {
        assert(s[0].key != key);
        let t = s.drop_first();
        assert forall|i: int| 0 <= i < p - 1 implies (#[trigger] t[i]).key != key by {
            assert(t[i] == s[i + 1]);
        }
        lemma_layer_place(t, key, p - 1);
    }
}

fn find_layer(s: &Vec<ConfigLayerAt>, key: &String) -> (r: usize)
    ensures
        r == layer_place(value::views(s@), key@),
        r <= s.len(),
{
    let ghost all = value::views(s@);
    let mut i: usize = 0;
    while i < s.len()
        invariant
            i <= s.len(),
            all == value::views(s@),
            forall|j: int| 0 <= j < i ==> (#[trigger] all[j]).key != key@,
        decreases s.len() - i,
    {
        assert(all[i as int] == s@[i as int]@);
        if s[i].key.same(key) {
            proof {
                lemma_layer_place(all, key@, i as int);
            }
            return i;
        }
        i = i + 1;
    }
    proof {
        lemma_layer_place(all, key@, i as int);
    }
    i
}

fn drop_layers(s: &Vec<ConfigLayerAt>, key: &String) -> (r: Vec<ConfigLayerAt>)
    ensures
        value::views(r@) == layers_without(value::views(s@), key@),
{
    let ghost all = value::views(s@);
    let mut out: Vec<ConfigLayerAt> = Vec::new();
    let mut i: usize = 0;
    assert(all.take(0) =~= Seq::empty());
    while i < s.len()
        invariant
            i <= s.len(),
            all == value::views(s@),
            value::views(out@) == layers_without(all.take(i as int), key@),
        decreases s.len() - i,
    {
        proof {
            assert(all.take(i + 1).last() == s@[i as int]@);
            assert(all.take(i + 1).drop_last() =~= all.take(i as int));
        }
        if !s[i].key.same(key) {
            out.push(s[i].copy());
        }
        i = i + 1;
    }
    assert(all.take(i as int) =~= all);
    out
}

fn adds_layer(codec: &Codec, added: &Vec<Json>, key: &String) -> (r: bool)
    ensures
        r == names_layer(codec@, value::views(added@), key@),
{
    let ghost all = value::views(added@);
    let mut i: usize = 0;
    while i < added.len()
        invariant
            i <= added.len(),
            all == value::views(added@),
            forall|k: int|
                0 <= k < i ==> !(added_layer(codec@, #[trigger] all[k]) matches Some(l) && l.key
                    == key@),
        decreases added.len() - i,
    {
        assert(all[i as int] == added@[i as int]@);
        if let Some(package) = codec.digest_in(&added[i], "package") {
            let named = match added[i].get_text("module_id") {
                Some(id) => id.same(key),
                None => package.text.same(key),
            };
            if named {
                return true;
            }
        }
        i = i + 1;
    }
    false
}

fn remove_layers(
    s: Vec<ConfigLayerAt>,
    codec: &Codec,
    items: &Vec<Json>,
    added: &Vec<Json>,
) -> (r: Vec<ConfigLayerAt>)
    ensures
        value::views(r@) == removals(
            value::views(s@),
            codec@,
            value::views(items@),
            value::views(added@),
        ),
{
    let ghost all = value::views(items@);
    let ghost start = value::views(s@);
    let ghost more = value::views(added@);
    let mut out = s;
    let mut i: usize = 0;
    assert(all.take(0) =~= Seq::empty());
    while i < items.len()
        invariant
            i <= items.len(),
            all == value::views(items@),
            more == value::views(added@),
            value::views(out@) == removals(start, codec@, all.take(i as int), more),
        decreases items.len() - i,
    {
        proof {
            assert(all.take(i + 1).last() == items@[i as int]@);
            assert(all.take(i + 1).drop_last() =~= all.take(i as int));
        }
        if let Some(id) = items[i].get_text("module_id") {
            if !adds_layer(codec, added, id) {
                out = drop_layers(&out, id);
            }
        }
        i = i + 1;
    }
    assert(all.take(i as int) =~= all);
    out
}

fn add_layers(s: Vec<ConfigLayerAt>, codec: &Codec, items: &Vec<Json>) -> (r: Vec<ConfigLayerAt>)
    ensures
        value::views(r@) == additions(value::views(s@), codec@, value::views(items@)),
{
    let ghost all = value::views(items@);
    let ghost start = value::views(s@);
    let mut out = s;
    let mut i: usize = 0;
    assert(all.take(0) =~= Seq::empty());
    while i < items.len()
        invariant
            i <= items.len(),
            all == value::views(items@),
            value::views(out@) == additions(start, codec@, all.take(i as int)),
        decreases items.len() - i,
    {
        proof {
            assert(all.take(i + 1).last() == items@[i as int]@);
            assert(all.take(i + 1).drop_last() =~= all.take(i as int));
        }
        if let Some(package) = codec.digest_in(&items[i], "package") {
            let key = match items[i].get_text("module_id") {
                Some(id) => id.clone(),
                None => package.text.clone(),
            };
            let p: usize = find_layer(&out, &key);
            if p < out.len() {
                let kept = out[p].key.clone();
                out.set(p, ConfigLayerAt { key: kept, package });
            } else {
                out.push(ConfigLayerAt { key, package });
            }
        }
        i = i + 1;
    }
    assert(all.take(i as int) =~= all);
    out
}

fn read_layers(codec: &Codec, items: &Vec<Json>) -> (r: Vec<ConfigLayerAt>)
    ensures
        value::views(r@) == listed_layers(codec@, value::views(items@)),
{
    let ghost all = value::views(items@);
    let mut out: Vec<ConfigLayerAt> = Vec::new();
    let mut i: usize = 0;
    assert(all.take(0) =~= Seq::empty());
    while i < items.len()
        invariant
            i <= items.len(),
            all == value::views(items@),
            value::views(out@) == listed_layers(codec@, all.take(i as int)),
        decreases items.len() - i,
    {
        proof {
            assert(all.take(i + 1).last() == items@[i as int]@);
            assert(all.take(i + 1).drop_last() =~= all.take(i as int));
        }
        if let Json::Text(t) = &items[i] {
            if let Some(d) = codec.digest(t.as_str()) {
                out.push(ConfigLayerAt { key: d.text.clone(), package: d });
            }
        }
        i = i + 1;
    }
    assert(all.take(i as int) =~= all);
    out
}

fn rebase_layers(s: Vec<ConfigLayerAt>, codec: &Codec, payload: &Json) -> (r: Vec<ConfigLayerAt>)
    ensures
        value::views(r@) == rebased(value::views(s@), codec@, payload@),
{
    match payload.get("config_choice") {
        None => s,
        Some(choice) => match choice.get("layers") {
            Some(Json::List(items)) => {
                proof {
                    json::lemma_list_view(items@);
                }
                read_layers(codec, items)
            },
            _ => match codec.digest_in(choice, "current") {
                Some(d) => {
                    let mut out: Vec<ConfigLayerAt> = Vec::new();
                    out.push(ConfigLayerAt { key: d.text.clone(), package: d });
                    out
                },
                None => s,
            },
        },
    }
}

fn change_layers(s: Vec<ConfigLayerAt>, codec: &Codec, payload: &Json) -> (r: Vec<ConfigLayerAt>)
    ensures
        value::views(r@) == changed(value::views(s@), codec@, payload@),
{
    let of_config = match payload.get_text("initiator") {
        Some(t) => text::same_text(t.as_str(), "config"),
        None => false,
    };
    if !of_config {
        return s;
    }
    match payload.get("delta") {
        None => s,
        Some(delta) => {
            let none: Vec<Json> = Vec::new();
            assert(value::views(none@) =~= Seq::empty());
            let added = match delta.get("added") {
                Some(Json::List(items)) => {
                    proof {
                        json::lemma_list_view(items@);
                    }
                    items
                },
                _ => &none,
            };
            let fewer = match delta.get("removed") {
                Some(Json::List(items)) => {
                    proof {
                        json::lemma_list_view(items@);
                    }
                    remove_layers(s, codec, items, added)
                },
                _ => s,
            };
            add_layers(fewer, codec, added)
        },
    }
}

/// The packages of the config layers that were active at `at_seq`, lowest
/// first: the changes of the config are replayed, and a branch point sets the
/// stack to what it recorded.
pub fn config_choice_at(log: &Vec<LogRecord>, codec: &Codec, at_seq: u64) -> (r: Option<
    Vec<Digest>,
>)
    ensures
        match r {
            Some(d) => choice_at(value::views(log@), codec@, at_seq) == Some(value::views(d@)),
            None => choice_at(value::views(log@), codec@, at_seq) is None,
        },
{
    let ghost all = value::views(log@);
    let mut stack: Vec<ConfigLayerAt> = Vec::new();
    let mut i: usize = 0;
    assert(all.take(0) =~= Seq::empty());
    while i < log.len()
        invariant
            i <= log.len(),
            all == value::views(log@),
            value::views(stack@) == stack_at(all.take(i as int), codec@, at_seq),
        decreases log.len() - i,
    {
        let x = &log[i];
        proof {
            assert(all.take(i + 1).last() == x@);
            assert(all.take(i + 1).drop_last() =~= all.take(i as int));
        }
        if x.seq <= at_seq {
            if text::same_text(x.kind.as_str(), "branch_transition") {
                stack = rebase_layers(stack, codec, &x.payload);
            } else if text::same_text(x.kind.as_str(), "composition_changed") {
                stack = change_layers(stack, codec, &x.payload);
            }
        }
        i = i + 1;
    }
    assert(all.take(i as int) =~= all);
    if stack.len() == 0 {
        return None;
    }
    let ghost packages = value::views(stack@).map_values(|l: ConfigLayerAtView| l.package);
    let mut out: Vec<Digest> = Vec::new();
    let mut k: usize = 0;
    assert(value::views(out@) =~= packages.take(0));
    while k < stack.len()
        invariant
            k <= stack.len(),
            packages == value::views(stack@).map_values(|l: ConfigLayerAtView| l.package),
            value::views(out@) == packages.take(k as int),
        decreases stack.len() - k,
    {
        out.push(stack[k].package.copy());
        assert(packages.take(k + 1) =~= packages.take(k as int).push(packages[k as int]));
        k = k + 1;
    }
    assert(packages.take(k as int) =~= packages);
    Some(out)
}

/// Later records do not change what was chosen at a point.
pub proof fn law_choice_is_settled(log: Seq<LogRecordView>, r: LogRecordView, codec: CodecView, at_seq: u64)
    requires
        r.seq > at_seq,
    ensures
        choice_at(log.push(r), codec, at_seq) == choice_at(log, codec, at_seq),
{
    assert(log.push(r).drop_last() =~= log);
}

/// A branch point restores the stack that it recorded, whatever came before.
pub proof fn law_branch_points_restore_their_stack(
    log: Seq<LogRecordView>,
    r: LogRecordView,
    codec: CodecView,
    items: Seq<JsonView>,
)
    requires
        r.kind == "branch_transition"@,
        json::member(r.payload, "config_choice"@) matches Some(c) && json::member(c, "layers"@)
            == Some(JsonView::List(items)),
    ensures
        stack_at(log.push(r), codec, r.seq) == listed_layers(codec, items),
{
    assert(log.push(r).drop_last() =~= log);
}

/// What a checkpoint pins is what a branch continued from it is pinned to: its
/// lifetime root together with its project root, or nothing where it has no
/// lifetime root. Branches from checkpoints that pin different roots see
/// different memory.
pub proof fn law_continued_branches_keep_both_roots(
    lifetime: Seq<char>,
    project: Option<Seq<char>>,
    other_lifetime: Seq<char>,
    other_project: Option<Seq<char>>,
)
    ensures
        pins_of(Some(lifetime), project) matches Some(p) && p.lifetime == lifetime && p.project
            == project,
        pins_of(None, project) is None,
        pins_of(Some(lifetime), project) == pins_of(Some(other_lifetime), other_project)
            ==> lifetime == other_lifetime && project == other_project,
{
}

/// One transition more takes the events behind its frontier off the path, itself
/// included, and no others; without transitions every event is on the path.
pub proof fn law_transitions_abandon_their_tail(
    records: Seq<BranchRecordView>,
    r: BranchRecordView,
    seq: u64,
)
    ensures
        is_on_path(Seq::empty(), seq),
        is_on_path(records.push(r), seq) <==> is_on_path(records, seq) && (seq <= r.frontier_seq
            || seq > r.transition_seq),
{
    let all = records.push(r);
    assert(all[records.len() as int] == r);
    if is_on_path(all, seq) {
        assert(!abandons(all[records.len() as int], seq));
        assert forall|i: int| 0 <= i < records.len() implies !abandons(
            #[trigger] records[i],
            seq,
        ) by {
            assert(all[i] == records[i]);
        }
    }
}

/// What is found at a seq has that seq and is in the log, and something is found
/// wherever a record has it. A record that comes later takes over, unless its
/// frame already has one.
pub proof fn law_seqs_find_their_records(log: Seq<LogRecordView>, r: LogRecordView, seq: u64)
    ensures
        record_at(log, seq) matches Some(x) ==> x.seq == seq && log.contains(x),
        record_at(log, seq) is None ==> forall|i: int|
            0 <= i < log.len() ==> (#[trigger] log[i]).seq != seq,
        r.seq != seq ==> record_at(log.push(r), seq) == record_at(log, seq),
        r.seq == seq ==> record_at(log.push(r), seq) == Some(
            if record_at(log, seq) is Some && record_at(log, seq)->0.frame == r.frame {
                record_at(log, seq)->0
            } else {
                r
            },
        ),
    decreases log.len(),
{
    assert(log.push(r).drop_last() =~= log);
    if log.len() > 0 {
        let d = log.drop_last();
        law_seqs_find_their_records(d, r, seq);
        if record_at(d, seq) is Some {
            let x = record_at(d, seq)->0;
            let i = choose|i: int| 0 <= i < d.len() && d[i] == x;
            assert(log[i] == x);
        }
        assert(log[log.len() - 1] == log.last());
        if record_at(log, seq) is None {
            assert forall|i: int| 0 <= i < log.len() implies (#[trigger] log[i]).seq != seq by {
                if i < d.len() {
                    assert(d[i] == log[i]);
                }
            }
        }
    }
}

/// A checkpoint is valid exactly if it is of this session, lies among the
/// committed events, and the event there is a checkpoint of that very seq with a
/// snapshot; it then pins what the event names.
pub proof fn law_valid_checkpoints_are_exact(
    checkpoint: CheckpointRefView,
    session: Seq<char>,
    next_seq: u64,
    log: Seq<LogRecordView>,
    codec: CodecView,
)
    ensures
        checkpoint_event(checkpoint, session, next_seq, log, codec) is Ok <==> {
            &&& checkpoint.session_id == session
            &&& 0 < checkpoint.seq < next_seq
            &&& record_at(log, checkpoint.seq) matches Some(r) && r.kind == "checkpoint_created"@
                && json::unsigned_member(r.payload, "frontier_seq"@) == Some(checkpoint.seq)
                && event::digest_member(codec, r.payload, "snapshot"@) is Some
        },
        checkpoint_event(checkpoint, session, next_seq, log, codec) matches Ok(c) ==> ({
            let r = record_at(log, checkpoint.seq)->0;
            &&& c.id == r.id
            &&& event::digest_member(codec, r.payload, "snapshot"@) == Some(c.snapshot)
            &&& event::digest_member(codec, r.payload, "memory_root"@) == c.memory_root
            &&& event::digest_member(codec, r.payload, "project_memory_root"@)
                == c.project_memory_root
        }),
{
}

/// A continuation follows the roots that the checkpoint pins, both of them, or the
/// heads where it pins none. It is refused exactly if the snapshot is at fault or
/// the memory does not know a pinned root.
pub proof fn law_continuations_follow_what_is_pinned(
    c: CheckpointEventView,
    fault: Option<SnapshotFault>,
    knows_lifetime: bool,
    knows_project: bool,
)
    ensures
        checkpoint_follow(c, fault, knows_lifetime, knows_project) is Ok <==> fault is None && (
        c.memory_root is Some ==> knows_lifetime && (c.project_memory_root is Some
            ==> knows_project)),
        checkpoint_follow(c, fault, knows_lifetime, knows_project) matches Ok(f) ==> pins_under(f)
            == pins_of(c.memory_root, c.project_memory_root),
        checkpoint_follow(c, fault, knows_lifetime, knows_project) matches Ok(f) ==> (
        c.memory_root is None <==> f is FollowHead),
{
}

/// A policy that pins roots pins exactly these, and one that follows the heads
/// pins nothing; a policy is refused exactly if it pins a root that the memory
/// does not know.
pub proof fn law_policies_pin_what_they_name(
    lifetime_root: Seq<char>,
    project_root: Option<Seq<char>>,
    knows_lifetime: bool,
    knows_project: bool,
)
    ensures
        pins_under(MemoryFollowView::PinnedAt { lifetime_root, project_root }) matches Some(p)
            && p.lifetime == lifetime_root && p.project == project_root,
        pins_under(MemoryFollowView::FollowHead) is None,
        follow_error(MemoryFollowView::FollowHead, knows_lifetime, knows_project) is None,
        follow_error(
            MemoryFollowView::PinnedAt { lifetime_root, project_root },
            knows_lifetime,
            knows_project,
        ) is None <==> knows_lifetime && (project_root is Some ==> knows_project),
{
}

proof fn lemma_in_tail(
    s: Seq<QuiescedIntentView>,
    frontier: u64,
    transition: u64,
    q: QuiescedIntentView,
)
    ensures
        in_tail(s, frontier, transition).to_multiset().count(q) == if frontier < q.seq
            < transition {
            s.to_multiset().count(q)
        } else {
            0
        },
    decreases s.len(),
{
    broadcast use vstd::seq_lib::group_to_multiset_ensures;

    if s.len() > 0 {
        lemma_in_tail(s.drop_last(), frontier, transition, q);
        assert(s =~= s.drop_last().push(s.last()));
    }
}

/// A transition leaves behind every pending intent, each with its seq, its kind
/// and its identity, and every classified one that lies behind the frontier and
/// before the transition, and nothing else.
pub proof fn law_transitions_list_what_they_leave(
    log: Seq<LogRecordView>,
    frontier: u64,
    transition: u64,
    q: QuiescedIntentView,
)
    ensures
        ({
            let left = quiesced(log, frontier, transition);
            &&& left.cancelled.len() == intents::pending(log).len()
            &&& forall|i: int|
                0 <= i < left.cancelled.len() ==> (#[trigger] left.cancelled[i]).seq
                    == intents::pending(log)[i].seq && left.cancelled[i].kind == intents::pending(
                    log,
                )[i].kind && left.cancelled[i].id == intents::pending(log)[i].id
            &&& left.ambiguous.contains(q) <==> intents::classified(log).contains(q) && frontier
                < q.seq < transition
        }),
{
    broadcast use vstd::seq_lib::group_to_multiset_ensures;

    lemma_in_tail(intents::classified(log), frontier, transition, q);
}

/// A continued branch is a new one that comes from the current one: it starts
/// where the checkpoint is, its transition is the next event, and it records the
/// policy, the choice of the config and what was left behind. The choice keeps
/// the live config and names the one that the checkpoint pinned.
pub proof fn law_continuations_record_where_they_come_from(
    new_branch: Seq<char>,
    from: Seq<char>,
    checkpoint_seq: u64,
    transition_seq: u64,
    follow: MemoryFollowView,
    current: Option<Seq<char>>,
    historical: Option<Seq<char>>,
    composition: Seq<char>,
    layers: Seq<Seq<char>>,
    quiesce: QuiesceRecordView,
)
    ensures
        ({
            let choice = current_choice(current, historical, composition, layers);
            let b = continuation(
                new_branch,
                from,
                checkpoint_seq,
                transition_seq,
                follow,
                choice,
                quiesce,
            );
            &&& b.id == new_branch
            &&& b.from == Some(from)
            &&& b.frontier_seq == checkpoint_seq
            &&& b.transition_seq == transition_seq
            &&& b.follow == follow
            &&& b.quiesce == quiesce
            &&& b.config_choice.mode == "Current"@
            &&& b.config_choice.current == current
            &&& b.config_choice.historical == historical
            &&& b.config_choice.composition == Some(composition)
            &&& b.config_choice.layers == layers
        }),
{
}

/// Only a branch point or a change by the config changes the stack.
pub proof fn law_other_records_keep_the_stack(
    log: Seq<LogRecordView>,
    r: LogRecordView,
    codec: CodecView,
    at_seq: u64,
)
    requires
        r.kind != "branch_transition"@,
        r.kind == "composition_changed"@ ==> json::text_member(r.payload, "initiator"@) != Some(
            "config"@,
        ),
    ensures
        choice_at(log.push(r), codec, at_seq) == choice_at(log, codec, at_seq),
        choice_at(Seq::empty(), codec, at_seq) is None,
{
    assert(log.push(r).drop_last() =~= log);
}

/// Dropping a module drops all its layers and no other.
pub proof fn law_dropped_modules_have_no_layer(
    s: Seq<ConfigLayerAtView>,
    key: Seq<char>,
    l: ConfigLayerAtView,
)
    ensures
        layers_without(s, key).contains(l) <==> s.contains(l) && l.key != key,
    decreases s.len(),
{
    if s.len() > 0 {
        let d = s.drop_last();
        law_dropped_modules_have_no_layer(d, key, l);
        let rest = layers_without(d, key);
        let all = layers_without(s, key);
        if all.contains(l) {
            let k = choose|k: int| 0 <= k < all.len() && all[k] == l;
            if k < rest.len() {
                assert(rest[k] == l);
                let j = choose|j: int| 0 <= j < d.len() && d[j] == l;
                assert(s[j] == l);
            } else {
                assert(s[s.len() - 1] == l);
            }
        }
        if s.contains(l) && l.key != key {
            let k = choose|k: int| 0 <= k < s.len() && s[k] == l;
            if k < d.len() {
                assert(d[k] == l);
                let j = choose|j: int| 0 <= j < rest.len() && rest[j] == l;
                assert(all[j] == l);
            } else {
                assert(all[all.len() - 1] == l);
            }
        }
    }
}

/// A removed module that is not added again is gone from the stack, and the other
/// layers stay.
pub proof fn law_removed_modules_are_dropped(
    s: Seq<ConfigLayerAtView>,
    codec: CodecView,
    item: JsonView,
    id: Seq<char>,
    l: ConfigLayerAtView,
)
    requires
        json::text_member(item, "module_id"@) == Some(id),
    ensures
        removals(s, codec, Seq::empty().push(item), Seq::empty()).contains(l) <==> s.contains(l)
            && l.key != id,
{
    let items = Seq::<JsonView>::empty().push(item);
    assert(items.drop_last() =~= Seq::<JsonView>::empty());
    assert(removals(s, codec, items.drop_last(), Seq::empty()) == s);
    law_dropped_modules_have_no_layer(s, id, l);
}

/// A transition sets the stack to the layers that its choice lists, in order;
/// where it lists none, to the package it chose; and where it chose nothing the
/// stack stays.
pub proof fn law_transitions_set_the_stack(
    s: Seq<ConfigLayerAtView>,
    codec: CodecView,
    payload: JsonView,
    items: Seq<JsonView>,
    x: JsonView,
)
    ensures
        json::member(payload, "config_choice"@) is None ==> rebased(s, codec, payload) == s,
        json::member(payload, "config_choice"@) matches Some(choice) ==> {
            &&& json::member(choice, "layers"@) matches Some(JsonView::List(all)) ==> rebased(
                s,
                codec,
                payload,
            ) == listed_layers(codec, all)
            &&& (json::member(choice, "layers"@) is None && event::digest_member(
                codec,
                choice,
                "current"@,
            ) is Some) ==> rebased(s, codec, payload) == seq![
                ConfigLayerAtView {
                    key: event::digest_member(codec, choice, "current"@)->0,
                    package: event::digest_member(codec, choice, "current"@)->0,
                },
            ]
            &&& (json::member(choice, "layers"@) is None && event::digest_member(
                codec,
                choice,
                "current"@,
            ) is None) ==> rebased(s, codec, payload) == s
        },
        listed_layers(codec, Seq::empty()) == Seq::<ConfigLayerAtView>::empty(),
        x matches JsonView::Text(t) ==> {
            &&& event::digest_named(codec, t) matches Some(d) ==> listed_layers(codec, items.push(x))
                == listed_layers(codec, items).push(ConfigLayerAtView { key: d, package: d })
            &&& event::digest_named(codec, t) is None ==> listed_layers(codec, items.push(x))
                == listed_layers(codec, items)
        },
        !(x is Text) ==> listed_layers(codec, items.push(x)) == listed_layers(codec, items),
{
    assert(items.push(x).drop_last() =~= items);
    if let Some(choice) = json::member(payload, "config_choice"@) {
        if let Some(d) = event::digest_member(codec, choice, "current"@) {
            assert(Seq::<ConfigLayerAtView>::empty().push(ConfigLayerAtView { key: d, package: d })
                =~= seq![ConfigLayerAtView { key: d, package: d }]);
        }
    }
}

proof fn lemma_first_place(s: Seq<ConfigLayerAtView>, key: Seq<char>)
    ensures
        0 <= layer_place(s, key) <= s.len(),
        layer_place(s, key) < s.len() ==> s[layer_place(s, key)].key == key,
        forall|i: int| 0 <= i < layer_place(s, key) ==> (#[trigger] s[i]).key != key,
    decreases s.len(),
{
    if s.len() > 0 && s[0].key != key {
        let t = s.drop_first();
        lemma_first_place(t, key);
        assert forall|i: int| 0 <= i < layer_place(s, key) implies (#[trigger] s[i]).key != key by {
            if i > 0 {
                assert(s[i] == t[i - 1]);
            }
        }
    }
}

/// An added layer takes the place of its module's layer, with the new package,
/// and a new module's layer goes on top; nothing else moves.
pub proof fn law_added_layers_keep_their_place(
    s: Seq<ConfigLayerAtView>,
    l: ConfigLayerAtView,
    i: int,
)
    requires
        0 <= i < s.len(),
        forall|a: int, b: int| 0 <= a < b < s.len() ==> (#[trigger] s[a]).key != (#[trigger] s[b]).key,
    ensures
        s[i].key == l.key ==> layer_put(s, l).len() == s.len() && layer_put(s, l)[i].package
            == l.package && layer_put(s, l)[i].key == l.key,
        s[i].key != l.key ==> layer_put(s, l)[i] == s[i],
        (forall|k: int| 0 <= k < s.len() ==> (#[trigger] s[k]).key != l.key) ==> layer_put(s, l)
            == s.push(l),
{
    lemma_first_place(s, l.key);
}

/// The additions of a delta are made one after the other: one that names a
/// package counts, under its module or, without one, under the package itself.
pub proof fn law_additions_are_made_in_order(
    s: Seq<ConfigLayerAtView>,
    codec: CodecView,
    items: Seq<JsonView>,
    x: JsonView,
)
    ensures
        additions(s, codec, Seq::empty()) == s,
        event::digest_member(codec, x, "package"@) is None ==> additions(s, codec, items.push(x))
            == additions(s, codec, items),
        event::digest_member(codec, x, "package"@) matches Some(d) ==> additions(
            s,
            codec,
            items.push(x),
        ) == layer_put(
            additions(s, codec, items),
            ConfigLayerAtView {
                key: if json::text_member(x, "module_id"@) is Some {
                    json::text_member(x, "module_id"@)->0
                } else {
                    d
                },
                package: d,
            },
        ),
{
    assert(items.push(x).drop_last() =~= items);
}

/// Only the config's own changes touch the stack: first what they remove, and
/// then what they add.
pub proof fn law_only_config_changes_touch_the_stack(
    s: Seq<ConfigLayerAtView>,
    codec: CodecView,
    payload: JsonView,
)
    ensures
        json::text_member(payload, "initiator"@) != Some("config"@) ==> changed(s, codec, payload)
            == s,
        json::member(payload, "delta"@) is None ==> changed(s, codec, payload) == s,
        (json::text_member(payload, "initiator"@) == Some("config"@) && json::member(
            payload,
            "delta"@,
        ) is Some && json::member(json::member(payload, "delta"@)->0, "removed"@) is None) ==> (
        json::member(json::member(payload, "delta"@)->0, "added"@) matches Some(
            JsonView::List(added),
        ) ==> changed(s, codec, payload) == additions(s, codec, added)),
{
}

/// A snapshot that fails is told with its digest and what failed.
pub proof fn law_snapshot_faults_tell_their_reason(snapshot: Seq<char>, e: String)
    ensures
        snapshot_error(snapshot, SnapshotFault::Unreadable(e)) == SessionErrorView::Snapshot(
            "checkpoint snapshot "@ + snapshot + " unreadable: "@ + e@,
        ),
        snapshot_error(snapshot, SnapshotFault::NotAManifest(e)) == SessionErrorView::Snapshot(
            "checkpoint snapshot "@ + snapshot + " is not a manifest: "@ + e@,
        ),
        snapshot_error(snapshot, SnapshotFault::Closure(e)) == SessionErrorView::Snapshot(
            "checkpoint snapshot closure failed: "@ + e@,
        ),
{
}

} // verus!
