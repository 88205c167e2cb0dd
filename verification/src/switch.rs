//! Switching sessions: independent forks, adopting a fork's outcome, and
//! importing a session.
use vstd::prelude::*;
use vstd::string::*;
use crate::branch;
use crate::branch::{
    CheckpointEvent, CheckpointEventView, CheckpointRef, MemoryFollow, MemoryFollowView,
    PinnedRoots,
};
use crate::digests;
use crate::event;
use crate::event::{Codec, CodecView, Event, EventView, LogRecord, LogRecordView};
use crate::ids::{Digest, Id128};
use crate::json;
use crate::json::{Json, JsonView};
use crate::memory::{MemoryScope, MemoryScopeView};
use crate::opening::{SessionConfig, SessionConfigView};
use crate::package::{PackageManifest, PackageManifestView};
use crate::session_error;
use crate::session_error::{SessionError, SessionErrorView};
use crate::text;
use crate::value;
use crate::value::Value;

verus! {

broadcast use value::group_views;

// ---------- targets ----------

/// What stands at a target.
#[derive(Debug, Clone, Copy, PartialEq, Eq, Structural)]
pub enum TargetState {
    Absent,
    Empty,
    Filled,
    NotADirectory,
}

/// What a target is for.
#[derive(Debug, Clone, Copy, PartialEq, Eq, Structural)]
pub enum Errand {
    Fork,
    Import,
}

/// Why a target is refused: a session is never seeded into what is there.
pub open spec fn target_error(errand: Errand, state: TargetState, dir: Seq<char>) -> Option<
    SessionErrorView,
> {
    match state {
        TargetState::Absent => None,
        TargetState::Empty => None,
        TargetState::Filled => Some(
            session_error::invalid(
                match errand {
                    Errand::Fork => "fork target dir "@ + dir
                        + " is not empty (refusing to seed into an existing session dir)"@,
                    Errand::Import => "import target dir "@ + dir
                        + " is not empty (refusing to merge into an existing session dir)"@,
                },
            ),
        ),
        TargetState::NotADirectory => Some(
            session_error::invalid(
                match errand {
                    Errand::Fork => "fork target "@ + dir + " exists and is not a directory"@,
                    Errand::Import => "import target "@ + dir + " exists and is not a directory"@,
                },
            ),
        ),
    }
}

/// Checks a target directory.
pub fn check_target(errand: Errand, state: TargetState, dir: &str) -> (r: Result<
    (),
    SessionError,
>)
    ensures
        value::failure(r) == target_error(errand, state, dir@),
{
    match state {
        TargetState::Absent => Ok(()),
        TargetState::Empty => Ok(()),
        TargetState::Filled => Err(
            SessionError::InvalidInput(
                match errand {
                    Errand::Fork => text::cat3(
                        "fork target dir ",
                        dir,
                        " is not empty (refusing to seed into an existing session dir)",
                    ),
                    Errand::Import => text::cat3(
                        "import target dir ",
                        dir,
                        " is not empty (refusing to merge into an existing session dir)",
                    ),
                },
            ),
        ),
        TargetState::NotADirectory => Err(
            SessionError::InvalidInput(
                match errand {
                    Errand::Fork => text::cat3(
                        "fork target ",
                        dir,
                        " exists and is not a directory",
                    ),
                    Errand::Import => text::cat3(
                        "import target ",
                        dir,
                        " exists and is not a directory",
                    ),
                },
            ),
        ),
    }
}

/// What stands at the log of an import's source.
#[derive(Debug, Clone, Copy, PartialEq, Eq, Structural)]
pub enum SourceLog {
    Absent,
    NotAFile,
    File,
}

pub open spec fn source_error(state: SourceLog, dir: Seq<char>, log: Seq<char>) -> Option<
    SessionErrorView,
> {
    match state {
        SourceLog::Absent => Some(
            session_error::invalid("import source "@ + dir + " has no log.zst"@),
        ),
        SourceLog::NotAFile => Some(
            session_error::invalid("import source log "@ + log + " is not a file"@),
        ),
        SourceLog::File => None,
    }
}

/// Checks the source of an import.
pub fn check_source(state: SourceLog, dir: &str, log: &str) -> (r: Result<(), SessionError>)
    ensures
        value::failure(r) == source_error(state, dir@, log@),
{
    match state {
        SourceLog::Absent => Err(
            SessionError::InvalidInput(text::cat3("import source ", dir, " has no log.zst")),
        ),
        SourceLog::NotAFile => Err(
            SessionError::InvalidInput(text::cat3("import source log ", log, " is not a file")),
        ),
        SourceLog::File => Ok(()),
    }
}

/// The configuration that an imported session opens with.
pub open spec fn imported_config(dir: Seq<char>, session: Option<Seq<char>>, project: Option<Seq<char>>) -> SessionConfigView {
    SessionConfigView {
        dir,
        session_id: session,
        project,
        ..crate::opening::default_config()
    }
}

/// The configuration of an imported session: the identity and the project that
/// its directory carries, and nothing else set.
pub fn import_config(dir: &str, session: Option<Id128>, project: Option<Id128>) -> (r: SessionConfig)
    ensures
        r@ == imported_config(dir@, value::opt_view(session), value::opt_view(project)),
{
    let base = SessionConfig::default();
    SessionConfig { dir: dir.to_owned(), session_id: session, project, ..base }
}

// ---------- the fork floor ----------

/// A capability: a resource, and what may be done with it.
#[derive(Debug, Clone, PartialEq, Eq)]
pub struct Capability {
    pub resource: String,
    pub actions: Vec<String>,
}

pub struct CapabilityView {
    pub resource: Seq<char>,
    pub actions: Seq<Seq<char>>,
}

impl View for Capability {
    type V = CapabilityView;

    open spec fn view(&self) -> CapabilityView {
        CapabilityView {
            resource: self.resource@,
            actions: value::views(self.actions@),
        }
    }
}

impl Value for Capability {
    fn copy(&self) -> (r: Self) {
        Capability {
            resource: self.resource.copy(),
            actions: value::copy_vec(&self.actions),
        }
    }

    fn same(&self, other: &Self) -> (r: bool) {
        self.resource.same(&other.resource)
            && value::same_vec(&self.actions, &other.actions)
    }
}

/// The policy that a fork starts under.
#[derive(Debug, Clone, PartialEq, Eq)]
pub struct FloorTemplate {
    pub allow: Vec<Capability>,
    pub deny: Vec<Capability>,
    pub require_approval: Vec<Capability>,
    pub version: u64,
    pub monotonic: bool,
}

pub struct FloorTemplateView {
    pub allow: Seq<CapabilityView>,
    pub deny: Seq<CapabilityView>,
    pub require_approval: Seq<CapabilityView>,
    pub version: u64,
    pub monotonic: bool,
}

impl View for FloorTemplate {
    type V = FloorTemplateView;

    open spec fn view(&self) -> FloorTemplateView {
        FloorTemplateView {
            allow: value::views(self.allow@),
            deny: value::views(self.deny@),
            require_approval: value::views(self.require_approval@),
            version: self.version,
            monotonic: self.monotonic,
        }
    }
}

/// A grant for the forked session itself.
#[derive(Debug, Clone, PartialEq, Eq)]
pub struct FloorGrant {
    pub session: Id128,
    pub generation: u64,
    pub capability: Capability,
    pub purpose: String,
    pub policy_version: u64,
}

pub struct FloorGrantView {
    pub session: Seq<char>,
    pub generation: u64,
    pub capability: CapabilityView,
    pub purpose: Seq<char>,
    pub policy_version: u64,
}

impl View for FloorGrant {
    type V = FloorGrantView;

    open spec fn view(&self) -> FloorGrantView {
        FloorGrantView {
            session: self.session@,
            generation: self.generation,
            capability: self.capability@,
            purpose: self.purpose@,
            policy_version: self.policy_version,
        }
    }
}

/// What a fork may do.
#[derive(Debug, Clone, PartialEq, Eq)]
pub struct ForkFloor {
    pub template: FloorTemplate,
    pub grants: Vec<FloorGrant>,
}

pub struct ForkFloorView {
    pub template: FloorTemplateView,
    pub grants: Seq<FloorGrantView>,
}

impl View for ForkFloor {
    type V = ForkFloorView;

    open spec fn view(&self) -> ForkFloorView {
        ForkFloorView {
            template: self.template@,
            grants: value::views(self.grants@),
        }
    }
}

/// The capability to call a resource.
pub open spec fn callable(resource: Seq<char>) -> CapabilityView {
    CapabilityView { resource, actions: Seq::empty().push("call"@) }
}

/// What a fork may read.
pub open spec fn read_only() -> Seq<CapabilityView> {
    Seq::empty().push(callable("fs.read"@)).push(callable("fs.search"@)).push(
        callable("git.status"@),
    ).push(callable("git.diff"@)).push(callable("memory.query"@))
}

pub open spec fn propose() -> CapabilityView {
    callable("memory.propose"@)
}

pub open spec fn floor_grant(session: Seq<char>, c: CapabilityView) -> FloorGrantView {
    FloorGrantView {
        session,
        generation: 0,
        capability: c,
        purpose: "fork-floor"@,
        policy_version: 1,
    }
}

/// The floor of a fork: it may read, and propose to memory with an approval.
pub open spec fn floor_of(session: Seq<char>) -> ForkFloorView {
    let allow = read_only().push(propose());
    ForkFloorView {
        template: FloorTemplateView {
            allow,
            deny: Seq::empty(),
            require_approval: Seq::empty().push(propose()),
            version: 1,
            monotonic: true,
        },
        grants: allow.map_values(|c: CapabilityView| floor_grant(session, c)),
    }
}

fn call_of(resource: &str) -> (r: Capability)
    ensures
        r@ == callable(resource@),
{
    let mut actions: Vec<String> = Vec::new();
    actions.push("call".to_owned());
    let r = Capability { resource: resource.to_owned(), actions };
    assert(value::views(r.actions@) =~= Seq::empty().push("call"@));
    r
}

/// The floor of a fork with the given identity.
pub fn fork_floor(session: &Id128) -> (r: ForkFloor)
    ensures
        r@ == floor_of(session@),
{
    let mut allow: Vec<Capability> = Vec::new();
    allow.push(call_of("fs.read"));
    allow.push(call_of("fs.search"));
    allow.push(call_of("git.status"));
    allow.push(call_of("git.diff"));
    allow.push(call_of("memory.query"));
    allow.push(call_of("memory.propose"));
    let ghost allowed = read_only().push(propose());
    assert(value::views(allow@) =~= allowed);
    let mut require_approval: Vec<Capability> = Vec::new();
    require_approval.push(call_of("memory.propose"));
    assert(value::views(require_approval@) =~= Seq::empty().push(propose()));
    let ghost want = allowed.map_values(|c: CapabilityView| floor_grant(session@, c));
    let mut grants: Vec<FloorGrant> = Vec::new();
    let mut i: usize = 0;
    assert(value::views(grants@) =~= want.take(0));
    while i < allow.len()
        invariant
            i <= allow.len(),
            value::views(allow@) == allowed,
            want == allowed.map_values(|c: CapabilityView| floor_grant(session@, c)),
            value::views(grants@) == want.take(i as int),
        decreases allow.len() - i,
    {
        let g = FloorGrant {
            session: session.copy(),
            generation: 0,
            capability: allow[i].copy(),
            purpose: "fork-floor".to_owned(),
            policy_version: 1,
        };
        assert(g@ == want[i as int]);
        grants.push(g);
        assert(want.take(i + 1) =~= want.take(i as int).push(want[i as int]));
        i = i + 1;
    }
    assert(want.take(i as int) =~= want);
    let deny: Vec<Capability> = Vec::new();
    assert(value::views(deny@) =~= Seq::empty());
    ForkFloor {
        template: FloorTemplate { allow, deny, require_approval, version: 1, monotonic: true },
        grants,
    }
}

// ---------- what a fork takes along ----------

/// The objects of a checkpoint: its snapshot's closure and the snapshot
/// itself.
pub open spec fn forked_objects(closure: Seq<Seq<char>>, snapshot: Seq<char>) -> Seq<Seq<char>> {
    if closure.contains(snapshot) {
        closure
    } else {
        closure.push(snapshot)
    }
}

pub fn fork_objects(closure: &Vec<Digest>, snapshot: &Digest) -> (r: Vec<Digest>)
    ensures
        value::views(r@) == forked_objects(value::views(closure@), snapshot@),
{
    let mut out = value::copy_vec(closure);
    if !value::occurs(closure, snapshot) {
        out.push(snapshot.copy());
    }
    out
}

/// The workspace manifests recorded up to a seq.
pub open spec fn workspaces_until(log: Seq<LogRecordView>, seq: u64, codec: CodecView) -> Seq<
    Seq<char>,
>
    decreases log.len(),
{
    if log.len() == 0 {
        Seq::empty()
    } else {
        let rest = workspaces_until(log.drop_last(), seq, codec);
        let r = log.last();
        if r.seq <= seq && r.kind == "workspace_snapshot"@ {
            match event::digest_member(codec, r.payload, "manifest"@) {
                Some(d) => rest.push(d),
                None => rest,
            }
        } else {
            rest
        }
    }
}

/// The workspace snapshots that a fork takes along: events refer to them, the
/// checkpoint's closure does not.
pub fn workspace_manifests(log: &Vec<LogRecord>, seq: u64, codec: &Codec) -> (r: Vec<Digest>)
    ensures
        value::views(r@) == workspaces_until(value::views(log@), seq, codec@),
{
    let ghost all = value::views(log@);
    let mut out: Vec<Digest> = Vec::new();
    let mut i: usize = 0;
    assert(all.take(0) =~= Seq::empty());
    while i < log.len()
        invariant
            i <= log.len(),
            all == value::views(log@),
            value::views(out@) == workspaces_until(all.take(i as int), seq, codec@),
        decreases log.len() - i,
    {
        let x = &log[i];
        proof {
            assert(all.take(i + 1).last() == x@);
            assert(all.take(i + 1).drop_last() =~= all.take(i as int));
        }
        if x.seq <= seq && text::same_text(x.kind.as_str(), "workspace_snapshot") {
            if let Some(d) = codec.digest_in(&x.payload, "manifest") {
                out.push(d);
            }
        }
        i = i + 1;
    }
    assert(all.take(i as int) =~= all);
    out
}

/// An object that could not be read on the way.
#[derive(Debug, Clone, PartialEq, Eq)]
pub enum ObjectFault {
    Closure { digest: Digest, fault: String },
    Workspace { digest: Digest, fault: String },
    NotAWorkspace { digest: Digest, fault: String },
    Blob { digest: Digest, fault: String },
    Head { digest: Digest, fault: String },
    NotAHead { digest: Digest, fault: String },
    LifetimeRoot { digest: Digest, fault: String },
    ProjectRoot { digest: Digest, fault: String },
    /// A root that a checkpoint was to pin.
    CheckpointLifetimeRoot { digest: Digest, fault: String },
    CheckpointProjectRoot { digest: Digest, fault: String },
}

pub open spec fn object_error(f: ObjectFault) -> SessionErrorView {
    SessionErrorView::Snapshot(
        match f {
            ObjectFault::Closure { digest, fault } => "fork closure object "@ + digest@
                + " unreadable: "@ + fault@,
            ObjectFault::Workspace { digest, fault } => "workspace snapshot manifest "@ + digest@
                + " unreadable: "@ + fault@,
            ObjectFault::NotAWorkspace { digest, fault } => "workspace snapshot manifest "@
                + digest@ + " is not a manifest: "@ + fault@,
            ObjectFault::Blob { digest, fault } => "workspace snapshot blob "@ + digest@
                + " unreadable: "@ + fault@,
            ObjectFault::Head { digest, fault } => "fork head snapshot "@ + digest@
                + " unreadable: "@ + fault@,
            ObjectFault::NotAHead { digest, fault } => "fork head snapshot "@ + digest@
                + " is not a manifest: "@ + fault@,
            ObjectFault::LifetimeRoot { digest, fault } => "fork lifetime memory root "@ + digest@
                + " unreadable: "@ + fault@,
            ObjectFault::ProjectRoot { digest, fault } => "fork project memory root "@ + digest@
                + " unreadable: "@ + fault@,
            ObjectFault::CheckpointLifetimeRoot { digest, fault } => "checkpoint lifetime root "@
                + digest@ + " unreadable: "@ + fault@,
            ObjectFault::CheckpointProjectRoot { digest, fault } => "checkpoint project root "@
                + digest@ + " unreadable: "@ + fault@,
        },
    )
}

fn said(before: &str, digest: &Digest, middle: &str, fault: &str) -> (r: String)
    ensures
        r@ == before@ + digest@ + middle@ + fault@,
{
    let mut t = text::cat3(before, digest.text.as_str(), middle);
    t.append(fault);
    t
}

/// The error of an object that could not be read.
pub fn object_failure(f: &ObjectFault) -> (r: SessionError)
    ensures
        r@ == object_error(*f),
{
    SessionError::Snapshot(
        match f {
            ObjectFault::Closure { digest, fault } => said(
                "fork closure object ",
                digest,
                " unreadable: ",
                fault.as_str(),
            ),
            ObjectFault::Workspace { digest, fault } => said(
                "workspace snapshot manifest ",
                digest,
                " unreadable: ",
                fault.as_str(),
            ),
            ObjectFault::NotAWorkspace { digest, fault } => said(
                "workspace snapshot manifest ",
                digest,
                " is not a manifest: ",
                fault.as_str(),
            ),
            ObjectFault::Blob { digest, fault } => said(
                "workspace snapshot blob ",
                digest,
                " unreadable: ",
                fault.as_str(),
            ),
            ObjectFault::Head { digest, fault } => said(
                "fork head snapshot ",
                digest,
                " unreadable: ",
                fault.as_str(),
            ),
            ObjectFault::NotAHead { digest, fault } => said(
                "fork head snapshot ",
                digest,
                " is not a manifest: ",
                fault.as_str(),
            ),
            ObjectFault::LifetimeRoot { digest, fault } => said(
                "fork lifetime memory root ",
                digest,
                " unreadable: ",
                fault.as_str(),
            ),
            ObjectFault::ProjectRoot { digest, fault } => said(
                "fork project memory root ",
                digest,
                " unreadable: ",
                fault.as_str(),
            ),
            ObjectFault::CheckpointLifetimeRoot { digest, fault } => said(
                "checkpoint lifetime root ",
                digest,
                " unreadable: ",
                fault.as_str(),
            ),
            ObjectFault::CheckpointProjectRoot { digest, fault } => said(
                "checkpoint project root ",
                digest,
                " unreadable: ",
                fault.as_str(),
            ),
        },
    )
}

// ---------- seeding memory ----------

/// A memory scope that a fork is seeded with, up to a root.
#[derive(Debug, Clone, PartialEq, Eq)]
pub struct SeedScope {
    pub scope: MemoryScope,
    pub root: Digest,
}

pub struct SeedScopeView {
    pub scope: MemoryScopeView,
    pub root: Seq<char>,
}

impl View for SeedScope {
    type V = SeedScopeView;

    open spec fn view(&self) -> SeedScopeView {
        SeedScopeView { scope: self.scope@, root: self.root@ }
    }
}

/// The scopes that a fork is seeded with: those whose root the checkpoint
/// pins, the project's only where the session has one. A scope without a
/// pinned root had no head, and the fork's starts empty.
pub open spec fn seeded_scopes(c: CheckpointEventView, project: Option<Seq<char>>) -> Seq<
    SeedScopeView,
> {
    let lifetime = match c.memory_root {
        Some(root) => Seq::empty().push(SeedScopeView { scope: MemoryScopeView::Lifetime, root }),
        None => Seq::empty(),
    };
    match (project, c.project_memory_root) {
        (Some(id), Some(root)) => lifetime.push(
            SeedScopeView { scope: MemoryScopeView::Project(id), root },
        ),
        _ => lifetime,
    }
}

/// Lists the scopes to copy. Each copied transition log is cut where
/// [`truncate_log_at`] says; the project registry goes along with a project.
pub fn memory_seeds(c: &CheckpointEvent, project: &Option<Id128>) -> (r: Vec<SeedScope>)
    ensures
        value::views(r@) == seeded_scopes(c@, value::opt_view(*project)),
{
    let mut out: Vec<SeedScope> = Vec::new();
    assert(value::views(out@) =~= Seq::empty());
    if let Some(root) = &c.memory_root {
        out.push(SeedScope { scope: MemoryScope::Lifetime, root: root.copy() });
    }
    if let Some(id) = project {
        if let Some(root) = &c.project_memory_root {
            out.push(SeedScope { scope: MemoryScope::Project(id.copy()), root: root.copy() });
        }
    }
    out
}

/// A frame of a transition log: where it lies, and its records.
#[derive(Debug, Clone, PartialEq, Eq)]
pub struct Frame {
    pub start: u64,
    pub len: u64,
    pub events: Vec<LogRecord>,
}

/// The frame commits the root.
pub open spec fn commits(f: Frame, root: Seq<char>, codec: CodecView) -> bool {
    exists|i: int|
        0 <= i < f.events@.len() && (#[trigger] f.events@[i])@.kind == "memory_transition"@
            && event::digest_member(codec, f.events@[i]@.payload, "accepted_new_root"@) == Some(
            root,
        )
}

/// The last frame that commits the root.
pub open spec fn cut_frame(frames: Seq<Frame>, root: Seq<char>, codec: CodecView) -> Option<int>
    decreases frames.len(),
{
    if frames.len() == 0 {
        None
    } else if commits(frames.last(), root, codec) {
        Some(frames.len() - 1)
    } else {
        cut_frame(frames.drop_last(), root, codec)
    }
}

fn frame_commits(f: &Frame, root: &Digest, codec: &Codec) -> (r: bool)
    ensures
        r == commits(*f, root@, codec@),
{
    let mut i: usize = 0;
    while i < f.events.len()
        invariant
            i <= f.events.len(),
            forall|j: int|
                0 <= j < i ==> !((#[trigger] f.events@[j])@.kind == "memory_transition"@
                    && event::digest_member(codec@, f.events@[j]@.payload, "accepted_new_root"@)
                    == Some(root@)),
        decreases f.events.len() - i,
    {
        let x = &f.events[i];
        if text::same_text(x.kind.as_str(), "memory_transition") {
            if let Some(d) = codec.digest_in(&x.payload, "accepted_new_root") {
                if d.same(root) {
                    return true;
                }
            }
        }
        i = i + 1;
    }
    false
}

/// Where a copied transition log is cut, so that it ends with the frame that
/// commits the root: nothing later leaks into the fork. A log that does not
/// commit the root is refused, rather than seeding a newer head.
pub fn truncate_log_at(frames: &Vec<Frame>, root: &Digest, codec: &Codec, path: &str) -> (r: Result<
    u64,
    SessionError,
>)
    requires
        forall|i: int|
            0 <= i < frames.len() ==> (#[trigger] frames@[i]).start + frames@[i].len <= u64::MAX,
    ensures
        match (r, cut_frame(frames@, root@, codec@)) {
            (Ok(end), Some(k)) => end == frames@[k].start + frames@[k].len,
            (Err(e), None) => e@ == SessionErrorView::Snapshot(
                "memory root "@ + root@ + " is not committed by the copied transition log "@
                    + path@,
            ),
            _ => false,
        },
{
    let mut i: usize = frames.len();
    assert(frames@.take(i as int) =~= frames@);
    while i > 0
        invariant
            i <= frames.len(),
            cut_frame(frames@, root@, codec@) == cut_frame(
                frames@.take(i as int),
                root@,
                codec@,
            ),
            forall|k: int|
                0 <= k < frames.len() ==> (#[trigger] frames@[k]).start + frames@[k].len
                    <= u64::MAX,
        decreases i,
    {
        i = i - 1;
        proof {
            assert(frames@.take(i + 1).last() == frames@[i as int]);
            assert(frames@.take(i + 1).drop_last() =~= frames@.take(i as int));
        }
        if frame_commits(&frames[i], root, codec) {
            return Ok(frames[i].start + frames[i].len);
        }
    }
    Err(
        SessionError::Snapshot(
            said(
                "memory root ",
                root,
                " is not committed by the copied transition log ",
                path,
            ),
        ),
    )
}

// ---------- the config of a fork ----------

/// A config layer read back from its package.
#[derive(Debug, Clone, PartialEq, Eq)]
pub struct RestoredLayer {
    pub manifest: PackageManifest,
    pub digest: Digest,
}

pub struct RestoredLayerView {
    pub manifest: PackageManifestView,
    pub digest: Seq<char>,
}

impl View for RestoredLayer {
    type V = RestoredLayerView;

    open spec fn view(&self) -> RestoredLayerView {
        RestoredLayerView {
            manifest: self.manifest@,
            digest: self.digest@,
        }
    }
}

impl Value for RestoredLayer {
    fn copy(&self) -> (r: Self) {
        RestoredLayer {
            manifest: self.manifest.copy(),
            digest: self.digest.copy(),
        }
    }

    fn same(&self, other: &Self) -> (r: bool) {
        self.manifest.same(&other.manifest)
            && self.digest.same(&other.digest)
    }
}

/// The layers that could be read, lowest first.
pub open spec fn readable(s: Seq<Option<RestoredLayer>>) -> Seq<RestoredLayerView>
    decreases s.len(),
{
    if s.len() == 0 {
        Seq::empty()
    } else {
        match s.last() {
            Some(l) => readable(s.drop_last()).push(l@),
            None => readable(s.drop_last()),
        }
    }
}

/// Restores the layers of a checkpoint: the whole stack, less the packages
/// that the store no longer has.
pub fn restored_layers(s: &Vec<Option<RestoredLayer>>) -> (r: Vec<RestoredLayer>)
    ensures
        value::views(r@) == readable(s@),
{
    let mut out: Vec<RestoredLayer> = Vec::new();
    let mut i: usize = 0;
    assert(s@.take(0) =~= Seq::empty());
    while i < s.len()
        invariant
            i <= s.len(),
            value::views(out@) == readable(s@.take(i as int)),
        decreases s.len() - i,
    {
        proof {
            assert(s@.take(i + 1).last() == s@[i as int]);
            assert(s@.take(i + 1).drop_last() =~= s@.take(i as int));
        }
        if let Some(l) = &s[i] {
            out.push(l.copy());
        }
        i = i + 1;
    }
    assert(s@.take(i as int) =~= s@);
    out
}

pub open spec fn layer_manifests(s: Seq<RestoredLayerView>) -> Seq<PackageManifestView> {
    s.map_values(|l: RestoredLayerView| l.manifest)
}

pub open spec fn layer_digests(s: Seq<RestoredLayerView>) -> Seq<Seq<char>> {
    s.map_values(|l: RestoredLayerView| l.digest)
}

/// The configuration of a fork: its place, its identity, its layers and its
/// project are the fork's own, whatever the caller set.
pub open spec fn forked_config(
    cfg: SessionConfigView,
    dir: Seq<char>,
    session: Seq<char>,
    layers: Seq<RestoredLayerView>,
    source_project: Option<Seq<char>>,
) -> SessionConfigView {
    SessionConfigView {
        dir,
        session_id: Some(session),
        memory_root: None,
        config_layers: layer_manifests(layers),
        project: match source_project {
            Some(p) => Some(p),
            None => cfg.project,
        },
        ..cfg
    }
}

pub fn fork_config(
    cfg: SessionConfig,
    dir: &str,
    session: &Id128,
    layers: &Vec<RestoredLayer>,
    source_project: &Option<Id128>,
) -> (r: SessionConfig)
    ensures
        r@ == forked_config(
            cfg@,
            dir@,
            session@,
            value::views(layers@),
            value::opt_view(*source_project),
        ),
{
    let ghost want = layer_manifests(value::views(layers@));
    let mut config_layers: Vec<PackageManifest> = Vec::new();
    let mut i: usize = 0;
    assert(value::views(config_layers@) =~= want.take(0));
    while i < layers.len()
        invariant
            i <= layers.len(),
            want == layer_manifests(value::views(layers@)),
            value::views(config_layers@) == want.take(i as int),
        decreases layers.len() - i,
    {
        config_layers.push(layers[i].manifest.copy());
        assert(want.take(i + 1) =~= want.take(i as int).push(want[i as int]));
        i = i + 1;
    }
    assert(want.take(i as int) =~= want);
    let project = match source_project {
        Some(p) => Some(p.copy()),
        None => value::copy_opt(&cfg.project),
    };
    SessionConfig {
        dir: dir.to_owned(),
        session_id: Some(session.copy()),
        memory_root: None,
        config_layers,
        project,
        ..cfg
    }
}

// ---------- the fact of a fork ----------

/// What a fork refers to, so that it stays reachable there.
pub open spec fn fork_refs(
    c: CheckpointEventView,
    layers: Seq<RestoredLayerView>,
    workspaces: Seq<Seq<char>>,
) -> Seq<Seq<char>> {
    Seq::empty().push(c.snapshot) + digests::one(c.memory_root) + digests::one(c.project_memory_root)
        + layer_digests(layers) + workspaces
}

/// The package of the highest restored layer.
pub open spec fn restored_top(layers: Seq<RestoredLayerView>) -> Option<Seq<char>> {
    if layers.len() == 0 {
        None
    } else {
        Some(layers.last().digest)
    }
}

/// The record that a fork begins with: where it comes from, and what it was
/// granted. `follow` is the policy's own document.
pub open spec fn fork_record(
    source: Seq<char>,
    seq: u64,
    c: CheckpointEventView,
    follow: JsonView,
    grants: Seq<Seq<char>>,
    layers: Seq<RestoredLayerView>,
    workspaces: Seq<Seq<char>>,
) -> EventView {
    event::referring(
        event::document(
            "forked"@,
            JsonView::Object(json::fields7(json::fv("source_session"@, JsonView::Text(source)), json::fv("checkpoint_seq"@, JsonView::Unsigned(seq)), json::fv("checkpoint_snapshot"@, JsonView::Text(c.snapshot)), json::fv("follow"@, follow), json::fv("grants"@, json::text_list(grants)), json::fv("config"@, json::text_or_null(restored_top(layers))), json::fv("frontier_seq"@, JsonView::Unsigned(seq)))),
        ),
        fork_refs(c, layers, workspaces),
    )
}

fn layer_digest_list(layers: &Vec<RestoredLayer>) -> (r: Vec<Digest>)
    ensures
        value::views(r@) == layer_digests(value::views(layers@)),
{
    let ghost want = layer_digests(value::views(layers@));
    let mut out: Vec<Digest> = Vec::new();
    let mut i: usize = 0;
    assert(value::views(out@) =~= want.take(0));
    while i < layers.len()
        invariant
            i <= layers.len(),
            want == layer_digests(value::views(layers@)),
            value::views(out@) == want.take(i as int),
        decreases layers.len() - i,
    {
        out.push(layers[i].digest.copy());
        assert(want.take(i + 1) =~= want.take(i as int).push(want[i as int]));
        i = i + 1;
    }
    assert(want.take(i as int) =~= want);
    out
}

/// The event that a fork begins with.
pub fn fork_event(
    source: &Id128,
    seq: u64,
    c: &CheckpointEvent,
    follow: &Json,
    grants: &Vec<Digest>,
    layers: &Vec<RestoredLayer>,
    workspaces: &Vec<Digest>,
) -> (r: Event)
    ensures
        r@ == fork_record(
            source@,
            seq,
            c@,
            follow@,
            value::views(grants@),
            value::views(layers@),
            value::views(workspaces@),
        ),
{
    let mut refs: Vec<Digest> = Vec::new();
    refs.push(c.snapshot.copy());
    assert(value::views(refs@) =~= Seq::empty().push(c@.snapshot));
    digests::push_opt(&mut refs, &c.memory_root);
    digests::push_opt(&mut refs, &c.project_memory_root);
    let ghost first = value::views(refs@);
    let mut loaded = layer_digest_list(layers);
    let top = if layers.len() == 0 {
        None
    } else {
        Some(layers[layers.len() - 1].digest.copy())
    };
    assert(value::opt_view(top) == restored_top(value::views(layers@)));
    let ghost second = value::views(loaded@);
    refs.append(&mut loaded);
    assert(value::views(refs@) =~= first + second);
    let mut more = value::copy_vec(workspaces);
    refs.append(&mut more);
    assert(value::views(refs@) =~= first + second + value::views(workspaces@));
    let f = json::field(json::no_fields(), "source_session", json::text_json(source.text.as_str()));
    let f = json::field(f, "checkpoint_seq", Json::Unsigned(seq));
    let f = json::field(f, "checkpoint_snapshot", json::text_json(c.snapshot.text.as_str()));
    let f = json::field(f, "follow", follow.copy());
    let f = json::field(f, "grants", json::digest_list(grants));
    let f = json::field(f, "config", json::digest_or_null(&top));
    let f = json::field(f, "frontier_seq", Json::Unsigned(seq));
    let e = event::document_event("forked", json::record(f));
    Event { refs, ..e }
}

/// What a fork's projection is pinned to.
pub fn fork_pins(c: &CheckpointEvent) -> (r: Option<PinnedRoots>)
    ensures
        value::opt_view(r) == branch::pins_of(c@.memory_root, c@.project_memory_root),
        c@.memory_root matches Some(l) ==> (r matches Some(p) && p@.lifetime == l && p@.project
            == c@.project_memory_root),
        c@.memory_root is None ==> r is None,
{
    match &c.memory_root {
        Some(root) => Some(
            PinnedRoots {
                lifetime: root.copy(),
                project: value::copy_opt(&c.project_memory_root),
            },
        ),
        None => None,
    }
}

/// The outcome of a fork, beside the session itself.
#[derive(Debug, Clone, PartialEq, Eq)]
pub struct ForkReceipt {
    pub session_id: Id128,
    pub checkpoint_seq: u64,
    pub branch: Id128,
    pub follow: MemoryFollow,
}

pub struct ForkReceiptView {
    pub session_id: Seq<char>,
    pub checkpoint_seq: u64,
    pub branch: Seq<char>,
    pub follow: MemoryFollowView,
}

impl View for ForkReceipt {
    type V = ForkReceiptView;

    open spec fn view(&self) -> ForkReceiptView {
        ForkReceiptView {
            session_id: self.session_id@,
            checkpoint_seq: self.checkpoint_seq,
            branch: self.branch@,
            follow: self.follow@,
        }
    }
}

/// The receipt of a fork: the forked session and its branch, the checkpoint that
/// it derives from and the policy that its fact records.
pub fn fork_receipt(
    session: &Id128,
    checkpoint: &CheckpointRef,
    branch: &Id128,
    follow: &MemoryFollow,
) -> (r: ForkReceipt)
    ensures
        r@ == (ForkReceiptView {
            session_id: session@,
            checkpoint_seq: checkpoint@.seq,
            branch: branch@,
            follow: follow@,
        }),
{
    ForkReceipt {
        session_id: session.copy(),
        checkpoint_seq: checkpoint.seq,
        branch: branch.copy(),
        follow: follow.copy(),
    }
}

/// The outcome of an adoption.
#[derive(Debug, Clone, PartialEq, Eq)]
pub struct AdoptReceipt {
    pub fork_session: Id128,
    pub fork_seq: u64,
    pub follow: MemoryFollow,
}

pub struct AdoptReceiptView {
    pub fork_session: Seq<char>,
    pub fork_seq: u64,
    pub follow: MemoryFollowView,
}

impl View for AdoptReceipt {
    type V = AdoptReceiptView;

    open spec fn view(&self) -> AdoptReceiptView {
        AdoptReceiptView {
            fork_session: self.fork_session@,
            fork_seq: self.fork_seq,
            follow: self.follow@,
        }
    }
}

/// The receipt of an adoption, `next_seq` being the seq that the fork's next
/// event would get: the fork, its last event and the policy that the fact of the
/// adoption records.
pub fn adopt_receipt(fork: &Id128, next_seq: u64, follow: &MemoryFollow) -> (r: AdoptReceipt)
    requires
        next_seq > 0,
    ensures
        r@ == (AdoptReceiptView {
            fork_session: fork@,
            fork_seq: (next_seq - 1) as u64,
            follow: follow@,
        }),
{
    AdoptReceipt { fork_session: fork.copy(), fork_seq: next_seq - 1, follow: follow.copy() }
}

// ---------- adoption ----------

/// What a fork's log says of its origin.
#[derive(Debug, Clone, PartialEq, Eq)]
pub struct ForkFact {
    pub forked_seq: u64,
    /// The checkpoint that the fork derives from.
    pub frontier_seq: u64,
    /// Its last event.
    pub head_seq: u64,
}

pub struct ForkFactView {
    pub forked_seq: u64,
    pub frontier_seq: u64,
    pub head_seq: u64,
}

impl View for ForkFact {
    type V = ForkFactView;

    open spec fn view(&self) -> ForkFactView {
        ForkFactView {
            forked_seq: self.forked_seq,
            frontier_seq: self.frontier_seq,
            head_seq: self.head_seq,
        }
    }
}

/// The first fact of a fork in a log.
pub open spec fn first_fork(log: Seq<LogRecordView>) -> Option<LogRecordView>
    decreases log.len(),
{
    if log.len() == 0 {
        None
    } else if log[0].kind == "forked"@ {
        Some(log[0])
    } else {
        first_fork(log.drop_first())
    }
}

/// What makes a fork adoptable by a session: it was forked from it, and has
/// gone on since.
pub open spec fn fork_fact(
    log: Seq<LogRecordView>,
    next_seq: u64,
    fork: Seq<char>,
    session: Seq<char>,
    codec: CodecView,
) -> Result<ForkFactView, SessionErrorView> {
    match first_fork(log) {
        None => Err(
            session_error::invalid(
                "fork session "@ + fork
                    + " carries no `forked` fact — not a fork of this or any session"@,
            ),
        ),
        Some(r) => match event::id_member(codec, r.payload, "source_session"@) {
            None => Err(
                session_error::invalid(
                    "fork session "@ + fork + " has a `forked` fact without a source_session"@,
                ),
            ),
            Some(source) => if source != session {
                Err(
                    session_error::invalid(
                        "fork session "@ + fork + " belongs to source session "@ + source
                            + ", not "@ + session,
                    ),
                )
            } else {
                match json::unsigned_member(r.payload, "checkpoint_seq"@) {
                    None => Err(
                        session_error::invalid(
                            "fork session "@ + fork
                                + " has a `forked` fact without a checkpoint_seq"@,
                        ),
                    ),
                    Some(frontier_seq) => if next_seq - 1 <= r.seq {
                        Err(
                            session_error::invalid(
                                "fork "@ + fork + " has no outcome (head seq "@ + text::decimal(
                                    (next_seq - 1) as nat,
                                ) + " is the forked fact itself)"@,
                            ),
                        )
                    } else {
                        Ok(
                            ForkFactView {
                                forked_seq: r.seq,
                                frontier_seq,
                                head_seq: (next_seq - 1) as u64,
                            },
                        )
                    },
                }
            },
        },
    }
}

fn find_fork(log: &Vec<LogRecord>) -> (r: Option<LogRecord>)
    ensures
        value::opt_view(r) == first_fork(value::views(log@)),
{
    let ghost all = value::views(log@);
    let mut i: usize = 0;
    assert(all.skip(0) =~= all);
    while i < log.len()
        invariant
            i <= log.len(),
            all == value::views(log@),
            first_fork(all) == first_fork(all.skip(i as int)),
        decreases log.len() - i,
    {
        proof {
            assert(all.skip(i as int)[0] == log@[i as int]@);
            assert(all.skip(i as int).drop_first() =~= all.skip(i + 1));
        }
        if text::same_text(log[i].kind.as_str(), "forked") {
            return Some(log[i].copy());
        }
        i = i + 1;
    }
    None
}

/// Checks a fork before it is adopted.
pub fn check_fork(
    log: &Vec<LogRecord>,
    next_seq: u64,
    fork: &Id128,
    session: &Id128,
    codec: &Codec,
) -> (r: Result<ForkFact, SessionError>)
    requires
        next_seq > 0,
    ensures
        ({
            let fact = fork_fact(value::views(log@), next_seq, fork@, session@, codec@);
            match r {
                Ok(f) => fact == Ok::<ForkFactView, SessionErrorView>(f@),
                Err(e) => fact == Err::<ForkFactView, SessionErrorView>(e@),
            }
        }),
{
    let record = match find_fork(log) {
        Some(x) => x,
        None => return Err(
            SessionError::InvalidInput(
                text::cat3(
                    "fork session ",
                    fork.text.as_str(),
                    " carries no `forked` fact — not a fork of this or any session",
                ),
            ),
        ),
    };
    let source = match codec.id_in(&record.payload, "source_session") {
        Some(id) => id,
        None => return Err(
            SessionError::InvalidInput(
                text::cat3(
                    "fork session ",
                    fork.text.as_str(),
                    " has a `forked` fact without a source_session",
                ),
            ),
        ),
    };
    if !source.same(session) {
        let mut t = text::cat5(
            "fork session ",
            fork.text.as_str(),
            " belongs to source session ",
            source.text.as_str(),
            ", not ",
        );
        t.append(session.text.as_str());
        return Err(SessionError::InvalidInput(t));
    }
    let frontier_seq: u64 = match record.payload.get_unsigned("checkpoint_seq") {
        Some(n) => n,
        None => return Err(
            SessionError::InvalidInput(
                text::cat3(
                    "fork session ",
                    fork.text.as_str(),
                    " has a `forked` fact without a checkpoint_seq",
                ),
            ),
        ),
    };
    let head_seq: u64 = next_seq - 1;
    if head_seq <= record.seq {
        return Err(
            SessionError::InvalidInput(
                text::cat5(
                    "fork ",
                    fork.text.as_str(),
                    " has no outcome (head seq ",
                    text::decimal_text(head_seq).as_str(),
                    " is the forked fact itself)",
                ),
            ),
        );
    }
    Ok(ForkFact { forked_seq: record.seq, frontier_seq, head_seq })
}

/// The snapshot at a fork's head: the live one, or for a resumed fork the one
/// that its last event was committed against.
pub open spec fn head_of(
    current: Option<Seq<char>>,
    log: Seq<LogRecordView>,
    head_seq: u64,
    fork: Seq<char>,
) -> Result<Seq<char>, SessionErrorView> {
    let pinned = match branch::record_at(log, head_seq) {
        Some(r) => r.snapshot,
        None => None,
    };
    match (current, pinned) {
        (Some(d), _) => Ok(d),
        (None, Some(d)) => Ok(d),
        (None, None) => Err(
            session_error::invalid(
                "fork "@ + fork + " head seq "@ + text::decimal(head_seq as nat)
                    + " pins no snapshot manifest"@,
            ),
        ),
    }
}

pub fn head_snapshot(current: &Option<Digest>, log: &Vec<LogRecord>, head_seq: u64, fork: &Id128) -> (r:
    Result<Digest, SessionError>)
    ensures
        ({
            let head = head_of(value::opt_view(*current), value::views(log@), head_seq, fork@);
            match r {
                Ok(d) => head == Ok::<Seq<char>, SessionErrorView>(d@),
                Err(e) => head == Err::<Seq<char>, SessionErrorView>(e@),
            }
        }),
{
    if let Some(d) = current {
        return Ok(d.copy());
    }
    let pinned = match branch::envelope_at(log, head_seq) {
        Ok(x) => x.snapshot,
        Err(_) => None,
    };
    match pinned {
        Some(d) => Ok(d),
        None => Err(
            SessionError::InvalidInput(
                text::cat5(
                    "fork ",
                    fork.text.as_str(),
                    " head seq ",
                    text::decimal_text(head_seq).as_str(),
                    " pins no snapshot manifest",
                ),
            ),
        ),
    }
}

/// What a store says of an object.
#[derive(Debug, Clone, PartialEq, Eq)]
pub enum StoreRead {
    Found,
    Missing,
    Unreadable(String),
}

/// The store that an object is taken from: the first that has it.
pub open spec fn resolved_in(reads: Seq<StoreRead>, digest: Seq<char>) -> Result<
    nat,
    SessionErrorView,
>
    decreases reads.len(),
{
    if reads.len() == 0 {
        Err(
            SessionErrorView::Snapshot(
                "fork object "@ + digest
                    + " is missing from the fork session and memory stores"@,
            ),
        )
    } else {
        match reads[0] {
            StoreRead::Found => Ok(0),
            StoreRead::Unreadable(e) => Err(
                SessionErrorView::Snapshot("fork object "@ + digest + " unreadable: "@ + e@),
            ),
            StoreRead::Missing => match resolved_in(reads.drop_first(), digest) {
                Ok(k) => Ok((k + 1) as nat),
                Err(e) => Err(e),
            },
        }
    }
}

/// Finds an object in a fork's stores: the session's, then its memory's. Only
/// a store that lacks the object is passed over.
pub fn resolve_fork_object(reads: &Vec<StoreRead>, digest: &Digest) -> (r: Result<
    usize,
    SessionError,
>)
    ensures
        match r {
            Ok(k) => resolved_in(reads@, digest@) == Ok::<nat, SessionErrorView>(k as nat),
            Err(e) => resolved_in(reads@, digest@) == Err::<nat, SessionErrorView>(e@),
        },
{
    let mut i: usize = 0;
    assert(reads@.skip(0) =~= reads@);
    while i < reads.len()
        invariant
            i <= reads.len(),
            resolved_in(reads@, digest@) == (match resolved_in(
                reads@.skip(i as int),
                digest@,
            ) {
                Ok(k) => Ok::<nat, SessionErrorView>((k + i) as nat),
                Err(e) => Err::<nat, SessionErrorView>(e),
            }),
        decreases reads.len() - i,
    {
        proof {
            assert(reads@.skip(i as int)[0] == reads@[i as int]);
            assert(reads@.skip(i as int).drop_first() =~= reads@.skip(i + 1));
        }
        match &reads[i] {
            StoreRead::Found => return Ok(i),
            StoreRead::Unreadable(e) => return Err(
                SessionError::Snapshot(
                    said("fork object ", digest, " unreadable: ", e.as_str()),
                ),
            ),
            StoreRead::Missing => {},
        }
        i = i + 1;
    }
    Err(
        SessionError::Snapshot(
            text::cat3(
                "fork object ",
                digest.text.as_str(),
                " is missing from the fork session and memory stores",
            ),
        ),
    )
}

/// The memory that an adopting session follows: the fork's heads.
pub open spec fn adopted_follow(lifetime: Option<Seq<char>>, project: Option<Seq<char>>) -> MemoryFollowView {
    match lifetime {
        Some(lifetime_root) => MemoryFollowView::PinnedAt {
            lifetime_root,
            project_root: project,
        },
        None => MemoryFollowView::FollowHead,
    }
}

pub fn adopt_follow(lifetime: &Option<Digest>, project: &Option<Digest>) -> (r: MemoryFollow)
    ensures
        r@ == adopted_follow(value::opt_view(*lifetime), value::opt_view(*project)),
{
    match lifetime {
        Some(root) => MemoryFollow::PinnedAt {
            lifetime_root: root.copy(),
            project_root: value::copy_opt(project),
        },
        None => MemoryFollow::FollowHead,
    }
}

pub open spec fn followed_roots(follow: MemoryFollowView) -> Seq<Seq<char>> {
    match follow {
        MemoryFollowView::FollowHead => Seq::empty(),
        MemoryFollowView::PinnedAt { lifetime_root, project_root } => Seq::empty().push(
            lifetime_root,
        ) + digests::one(project_root),
    }
}

/// The record of an adoption. `document` is the policy's own document.
pub open spec fn adoption_record(
    fork: Seq<char>,
    fact: ForkFactView,
    snapshot: Seq<char>,
    follow: MemoryFollowView,
    document: JsonView,
    label: Option<Seq<char>>,
    quiesce: branch::QuiesceRecordView,
) -> EventView {
    event::referring(
        event::document(
            "fork_adopted"@,
            JsonView::Object(json::fields7(json::fv("fork_session"@, JsonView::Text(fork)), json::fv("fork_seq"@, JsonView::Unsigned(fact.head_seq)), json::fv("fork_snapshot"@, JsonView::Text(snapshot)), json::fv("follow"@, document), json::fv("label"@, json::text_or_null(label)), json::fv("quiesce"@, branch::quiesce_json(quiesce)), json::fv("frontier_seq"@, JsonView::Unsigned(fact.frontier_seq)))),
        ),
        Seq::empty().push(snapshot) + followed_roots(follow),
    )
}

/// The event of an adoption: what the session's own log leaves behind from the
/// point where the fork diverged is quiesced, as a branch transition does.
pub fn adopt_event(
    fork: &Id128,
    fact: &ForkFact,
    snapshot: &Digest,
    follow: &MemoryFollow,
    document: &Json,
    label: &Option<String>,
    log: &Vec<LogRecord>,
    next_seq: u64,
) -> (r: Event)
    ensures
        r@ == adoption_record(
            fork@,
            fact@,
            snapshot@,
            follow@,
            document@,
            value::opt_view(*label),
            branch::quiesced(value::views(log@), fact@.frontier_seq, next_seq),
        ),
{
    let quiesce = branch::quiesce(log, fact.frontier_seq, next_seq);
    let mut refs: Vec<Digest> = Vec::new();
    refs.push(snapshot.copy());
    if let MemoryFollow::PinnedAt { lifetime_root, project_root } = follow {
        refs.push(lifetime_root.copy());
        digests::push_opt(&mut refs, project_root);
    }
    assert(value::views(refs@) =~= Seq::empty().push(snapshot@) + followed_roots(follow@));
    let f = json::field(json::no_fields(), "fork_session", json::text_json(fork.text.as_str()));
    let f = json::field(f, "fork_seq", Json::Unsigned(fact.head_seq));
    let f = json::field(f, "fork_snapshot", json::text_json(snapshot.text.as_str()));
    let f = json::field(f, "follow", document.copy());
    let f = json::field(f, "label", json::string_or_null(label));
    let f = json::field(f, "quiesce", quiesce.encode());
    let f = json::field(f, "frontier_seq", Json::Unsigned(fact.frontier_seq));
    let e = event::document_event("fork_adopted", json::record(f));
    Event { refs, ..e }
}

// ---------- laws ----------

/// A fork's floor is read-only but for proposals: whatever it allows is a read,
/// or needs an approval.
pub proof fn law_fork_floors_only_read(session: Seq<char>, i: int)
    requires
        0 <= i < floor_of(session).template.allow.len(),
    ensures
        read_only().contains(floor_of(session).template.allow[i])
            || floor_of(session).template.require_approval.contains(
            floor_of(session).template.allow[i],
        ),
        floor_of(session).grants.len() == floor_of(session).template.allow.len(),
        floor_of(session).grants[i].capability == floor_of(session).template.allow[i],
        floor_of(session).grants[i].session == session,
{
    let allow = floor_of(session).template.allow;
    if i < read_only().len() {
        assert(read_only()[i] == allow[i]);
    } else {
        assert(floor_of(session).template.require_approval[0] == allow[i]);
    }
}

/// A seeded log ends with the frame that commits the pinned root: no later
/// frame commits it, and every later frame is cut.
pub proof fn law_seeded_logs_end_at_the_root(
    frames: Seq<Frame>,
    root: Seq<char>,
    codec: CodecView,
    j: int,
)
    ensures
        match cut_frame(frames, root, codec) {
            Some(k) => {
                &&& 0 <= k < frames.len()
                &&& commits(frames[k], root, codec)
                &&& k < j < frames.len() ==> !commits(frames[j], root, codec)
            },
            None => 0 <= j < frames.len() ==> !commits(frames[j], root, codec),
        },
    decreases frames.len(),
{
    if frames.len() > 0 && !commits(frames.last(), root, codec) {
        let d = frames.drop_last();
        law_seeded_logs_end_at_the_root(d, root, codec, j);
        if let Some(k) = cut_frame(d, root, codec) {
            assert(d[k] == frames[k]);
        }
        if 0 <= j < d.len() {
            assert(d[j] == frames[j]);
        }
    }
}

/// A fork is only adopted by the session it was forked from, with an outcome
/// to adopt.
pub proof fn law_only_own_forks_are_adopted(
    log: Seq<LogRecordView>,
    next_seq: u64,
    fork: Seq<char>,
    session: Seq<char>,
    codec: CodecView,
)
    requires
        fork_fact(log, next_seq, fork, session, codec) is Ok,
    ensures
        first_fork(log) matches Some(r) && event::id_member(
            codec,
            r.payload,
            "source_session"@,
        ) == Some(session) && r.seq < fork_fact(log, next_seq, fork, session, codec)->Ok_0.head_seq,
{
}

/// Everything that a fork was seeded from stays reachable in it.
pub proof fn law_forks_refer_to_their_source(
    c: CheckpointEventView,
    layers: Seq<RestoredLayerView>,
    workspaces: Seq<Seq<char>>,
    d: Seq<char>,
)
    requires
        d == c.snapshot || c.memory_root == Some(d) || c.project_memory_root == Some(d)
            || layer_digests(layers).contains(d) || workspaces.contains(d),
    ensures
        fork_refs(c, layers, workspaces).contains(d),
{
    let a = Seq::empty().push(c.snapshot);
    let b = a + digests::one(c.memory_root);
    let e = b + digests::one(c.project_memory_root);
    let f = e + layer_digests(layers);
    assert(a[0] == c.snapshot);
    if c.memory_root == Some(d) {
        assert(digests::one(c.memory_root)[0] == d);
    }
    if c.project_memory_root == Some(d) {
        assert(digests::one(c.project_memory_root)[0] == d);
    }
    digests::lemma_joined(a, digests::one(c.memory_root), d);
    digests::lemma_joined(b, digests::one(c.project_memory_root), d);
    digests::lemma_joined(e, layer_digests(layers), d);
    digests::lemma_joined(f, workspaces, d);
}

/// Only a target that is not there or is empty is taken, and only a source with a
/// log.
pub proof fn law_nothing_is_seeded_over(
    errand: Errand,
    state: TargetState,
    source: SourceLog,
    dir: Seq<char>,
    log: Seq<char>,
)
    ensures
        target_error(errand, state, dir) is None <==> state is Absent || state is Empty,
        source_error(source, dir, log) is None <==> source is File,
{
}

/// An imported session has the identity and the project that its directory
/// carries, and a fork its own place and identity, the restored layers and the
/// project of its source; neither takes over a memory root.
pub proof fn law_copies_open_as_themselves(
    cfg: SessionConfigView,
    dir: Seq<char>,
    session: Seq<char>,
    layers: Seq<RestoredLayerView>,
    project: Option<Seq<char>>,
    imported: Option<Seq<char>>,
)
    ensures
        imported_config(dir, imported, project).dir == dir,
        imported_config(dir, imported, project).session_id == imported,
        imported_config(dir, imported, project).project == project,
        imported_config(dir, imported, project).memory_root is None,
        imported_config(dir, imported, project).config_layers.len() == 0,
        ({
            let f = forked_config(cfg, dir, session, layers, project);
            &&& f.dir == dir
            &&& f.session_id == Some(session)
            &&& f.memory_root is None
            &&& f.config_layers.len() == layers.len()
            &&& forall|i: int|
                0 <= i < layers.len() ==> #[trigger] f.config_layers[i] == layers[i].manifest
            &&& project is Some ==> f.project == project
            &&& project is None ==> f.project == cfg.project
            &&& f.stream == cfg.stream
            &&& f.fs_root == cfg.fs_root
            &&& f.approval_bound == cfg.approval_bound
            &&& f.inline_max == cfg.inline_max
            &&& f.object_min == cfg.object_min
            &&& f.max_state_bytes == cfg.max_state_bytes
        }),
{
}

/// A fork may call the tools that read files, search them and show the state and
/// the changes of a repository, query memory, and propose to it with an approval;
/// it may call nothing else.
pub proof fn law_fork_floors_are_exact(session: Seq<char>, c: CapabilityView)
    ensures
        ({
            let t = floor_of(session).template;
            &&& t.allow.contains(c) ==> c.actions == seq!["call"@] && (c.resource == "fs.read"@
                || c.resource == "fs.search"@ || c.resource == "git.status"@ || c.resource
                == "git.diff"@ || c.resource == "memory.query"@ || c.resource == "memory.propose"@)
            &&& t.allow.len() == 6
            &&& t.require_approval.len() == 1
            &&& t.require_approval[0].resource == "memory.propose"@
            &&& t.deny.len() == 0
            &&& t.monotonic
        }),
        forall|i: int|
            0 <= i < floor_of(session).grants.len() ==> (#[trigger] floor_of(
                session,
            ).grants[i]).generation == 0 && floor_of(session).grants[i].session == session,
        callable("fs.read"@).resource == "fs.read"@,
        floor_of(session).template.allow[0].resource == "fs.read"@,
        floor_of(session).template.allow[1].resource == "fs.search"@,
        floor_of(session).template.allow[2].resource == "git.status"@,
        floor_of(session).template.allow[3].resource == "git.diff"@,
        floor_of(session).template.allow[4].resource == "memory.query"@,
        floor_of(session).template.allow[5].resource == "memory.propose"@,
{
    let allow = floor_of(session).template.allow;
    if allow.contains(c) {
        let i = choose|i: int| 0 <= i < allow.len() && allow[i] == c;
        assert(c.actions =~= seq!["call"@]);
        assert(i == 0 || i == 1 || i == 2 || i == 3 || i == 4 || i == 5);
    }
}

/// A fork takes the closure of the checkpoint and its snapshot, the workspace
/// snapshots up to the checkpoint, and the memory of every scope that it pins: the
/// lifetime root, and the project's where the session has a project.
pub proof fn law_forks_take_what_the_checkpoint_holds(
    closure: Seq<Seq<char>>,
    snapshot: Seq<char>,
    d: Seq<char>,
    log: Seq<LogRecordView>,
    r: LogRecordView,
    seq: u64,
    codec: CodecView,
    c: CheckpointEventView,
    project: Option<Seq<char>>,
)
    ensures
        forked_objects(closure, snapshot).contains(d) <==> closure.contains(d) || d == snapshot,
        workspaces_until(Seq::empty(), seq, codec).len() == 0,
        workspaces_until(log.push(r), seq, codec) == if r.seq <= seq && r.kind
            == "workspace_snapshot"@ && event::digest_member(
            codec,
            r.payload,
            "manifest"@,
        ) is Some {
            workspaces_until(log, seq, codec).push(
                event::digest_member(codec, r.payload, "manifest"@)->0,
            )
        } else {
            workspaces_until(log, seq, codec)
        },
        ({
            let s = seeded_scopes(c, project);
            let n: int = if c.memory_root is Some { 1 } else { 0 };
            let both = project is Some && c.project_memory_root is Some;
            &&& s.len() == if both { n + 1 } else { n }
            &&& c.memory_root matches Some(root) ==> s[0].scope is Lifetime && s[0].root == root
            &&& both ==> s[n].scope == MemoryScopeView::Project(project->0) && s[n].root
                == c.project_memory_root->0
        }),
{
    assert(log.push(r).drop_last() =~= log);
    if closure.contains(d) {
        let k = choose|k: int| 0 <= k < closure.len() && closure[k] == d;
        assert(closure.push(snapshot)[k] == d);
    }
    assert(closure.push(snapshot)[closure.len() as int] == snapshot);
    if closure.push(snapshot).contains(d) && d != snapshot {
        let k = choose|k: int|
            0 <= k < closure.push(snapshot).len() && closure.push(snapshot)[k] == d;
        assert(closure[k] == d);
    }
}

/// Every layer that could be read is restored, in the order of the stack; the
/// last of them is the top.
pub proof fn law_readable_layers_are_restored(
    s: Seq<Option<RestoredLayer>>,
    l: Option<RestoredLayer>,
    layers: Seq<RestoredLayerView>,
    top: RestoredLayerView,
)
    ensures
        readable(Seq::empty()).len() == 0,
        readable(s.push(l)) == match l {
            Some(x) => readable(s).push(x@),
            None => readable(s),
        },
        restored_top(Seq::empty()) is None,
        restored_top(layers.push(top)) == Some(top.digest),
{
    assert(s.push(l).drop_last() =~= s);
}

/// A fork refers to what it was seeded from and to nothing else.
pub proof fn law_forks_refer_to_nothing_else(
    c: CheckpointEventView,
    layers: Seq<RestoredLayerView>,
    workspaces: Seq<Seq<char>>,
    d: Seq<char>,
)
    ensures
        fork_refs(c, layers, workspaces).contains(d) <==> d == c.snapshot || c.memory_root == Some(
            d,
        ) || c.project_memory_root == Some(d) || workspaces.contains(d) || exists|i: int|
            0 <= i < layers.len() && (#[trigger] layers[i]).digest == d,
{
    let a = Seq::<Seq<char>>::empty().push(c.snapshot);
    assert(a =~= digests::one(Some(c.snapshot)));
    digests::lemma_one(Some(c.snapshot), d);
    digests::lemma_one(c.memory_root, d);
    digests::lemma_one(c.project_memory_root, d);
    let b = a + digests::one(c.memory_root);
    let e = b + digests::one(c.project_memory_root);
    let f = e + layer_digests(layers);
    digests::lemma_joined(a, digests::one(c.memory_root), d);
    digests::lemma_joined(b, digests::one(c.project_memory_root), d);
    digests::lemma_joined(e, layer_digests(layers), d);
    digests::lemma_joined(f, workspaces, d);
    if layer_digests(layers).contains(d) {
        let k = choose|k: int| 0 <= k < layers.len() && layer_digests(layers)[k] == d;
        assert(layers[k].digest == d);
    }
    if exists|i: int| 0 <= i < layers.len() && (#[trigger] layers[i]).digest == d {
        let i = choose|i: int| 0 <= i < layers.len() && (#[trigger] layers[i]).digest == d;
        assert(layer_digests(layers)[i] == d);
    }
}

/// A fork can be adopted exactly if its log says that it was forked from the
/// session, at which checkpoint, and if it has gone on since. The first such fact
/// of its log counts.
pub proof fn law_adoptable_forks_are_exact(
    r: LogRecordView,
    log: Seq<LogRecordView>,
    next_seq: u64,
    fork: Seq<char>,
    session: Seq<char>,
    codec: CodecView,
)
    requires
        next_seq > 0,
    ensures
        first_fork(Seq::empty()) is None,
        first_fork(seq![r] + log) == if r.kind == "forked"@ {
            Some(r)
        } else {
            first_fork(log)
        },
        fork_fact(log, next_seq, fork, session, codec) is Ok <==> (first_fork(log) matches Some(x)
            && event::id_member(codec, x.payload, "source_session"@) == Some(session)
            && json::unsigned_member(x.payload, "checkpoint_seq"@) is Some && x.seq + 1
            < next_seq),
        fork_fact(log, next_seq, fork, session, codec) matches Ok(f) ==> {
            &&& f.forked_seq == first_fork(log)->0.seq
            &&& json::unsigned_member(first_fork(log)->0.payload, "checkpoint_seq"@) == Some(
                f.frontier_seq,
            )
            &&& f.head_seq + 1 == next_seq
        },
{
    assert((seq![r] + log).drop_first() =~= log);
}

/// The head of a fork is its live snapshot, or the one that its last event was
/// committed against.
pub proof fn law_heads_are_live_or_pinned(
    current: Option<Seq<char>>,
    log: Seq<LogRecordView>,
    head_seq: u64,
    fork: Seq<char>,
)
    ensures
        current matches Some(d) ==> head_of(current, log, head_seq, fork) == Ok::<
            Seq<char>,
            SessionErrorView,
        >(d),
        current is None ==> (head_of(current, log, head_seq, fork) matches Ok(d)
            ==> branch::record_at(log, head_seq) matches Some(r) && r.snapshot == Some(d)),
        current is None ==> (head_of(current, log, head_seq, fork) is Ok <==> (branch::record_at(
            log,
            head_seq,
        ) matches Some(r) && r.snapshot is Some)),
{
}

/// An object is taken from the first store that has it; only stores that lack it
/// are passed over, and one that cannot be read fails.
pub proof fn law_objects_come_from_the_first_store(
    r: StoreRead,
    reads: Seq<StoreRead>,
    digest: Seq<char>,
)
    ensures
        resolved_in(Seq::empty(), digest) is Err,
        r is Found ==> resolved_in(seq![r] + reads, digest) == Ok::<nat, SessionErrorView>(0),
        r is Unreadable ==> resolved_in(seq![r] + reads, digest) is Err,
        r is Missing ==> (resolved_in(reads, digest) matches Ok(k) ==> resolved_in(
            seq![r] + reads,
            digest,
        ) == Ok::<nat, SessionErrorView>((k + 1) as nat)),
        r is Missing ==> (resolved_in(reads, digest) matches Err(e) ==> resolved_in(
            seq![r] + reads,
            digest,
        ) == Err::<nat, SessionErrorView>(e)),
{
    assert((seq![r] + reads).drop_first() =~= reads);
}

/// An adopting session follows the memory of the fork, both roots of it, and
/// refers to them; a fork without lifetime memory leaves it at the heads.
pub proof fn law_adoptions_follow_the_fork(
    lifetime: Option<Seq<char>>,
    project: Option<Seq<char>>,
    d: Seq<char>,
)
    ensures
        lifetime is None ==> adopted_follow(lifetime, project) is FollowHead,
        lifetime matches Some(l) ==> branch::pins_under(adopted_follow(lifetime, project)) == Some(
            branch::PinnedRootsView { lifetime: l, project },
        ),
        followed_roots(adopted_follow(lifetime, project)).contains(d) <==> lifetime is Some && (
        lifetime == Some(d) || project == Some(d)),
{
    if let Some(l) = lifetime {
        let a = Seq::<Seq<char>>::empty().push(l);
        assert(a =~= digests::one(Some(l)));
        digests::lemma_one(Some(l), d);
        digests::lemma_one(project, d);
        digests::lemma_joined(a, digests::one(project), d);
    }
}

/// A floor grant is the capability for its session and nothing more.
pub proof fn law_floor_grants_are_for_their_session(session: Seq<char>, c: CapabilityView)
    ensures
        floor_grant(session, c).session == session,
        floor_grant(session, c).capability == c,
        floor_grant(session, c).generation == 0,
        floor_grant(session, c).purpose == "fork-floor"@,
        floor_grant(session, c).policy_version == 1,
{
}

/// The layers of a fork keep their manifests, in order.
pub proof fn law_restored_layers_keep_their_manifests(s: Seq<RestoredLayerView>, i: int)
    requires
        0 <= i < s.len(),
    ensures
        layer_manifests(s).len() == s.len(),
        layer_manifests(s)[i] == s[i].manifest,
{
}

/// An object that fails is told with what it was for, its digest and what
/// failed.
pub proof fn law_object_faults_tell_their_object(f: ObjectFault)
    ensures
        object_error(f) is Snapshot,
        f matches ObjectFault::Closure { digest, fault } ==> object_error(f)->Snapshot_0
            == "fork closure object "@ + digest@ + " unreadable: "@ + fault@,
        f matches ObjectFault::Workspace { digest, fault } ==> object_error(f)->Snapshot_0
            == "workspace snapshot manifest "@ + digest@ + " unreadable: "@ + fault@,
        f matches ObjectFault::NotAWorkspace { digest, fault } ==> object_error(f)->Snapshot_0
            == "workspace snapshot manifest "@ + digest@ + " is not a manifest: "@ + fault@,
        f matches ObjectFault::Blob { digest, fault } ==> object_error(f)->Snapshot_0
            == "workspace snapshot blob "@ + digest@ + " unreadable: "@ + fault@,
        f matches ObjectFault::Head { digest, fault } ==> object_error(f)->Snapshot_0
            == "fork head snapshot "@ + digest@ + " unreadable: "@ + fault@,
        f matches ObjectFault::NotAHead { digest, fault } ==> object_error(f)->Snapshot_0
            == "fork head snapshot "@ + digest@ + " is not a manifest: "@ + fault@,
        f matches ObjectFault::LifetimeRoot { digest, fault } ==> object_error(f)->Snapshot_0
            == "fork lifetime memory root "@ + digest@ + " unreadable: "@ + fault@,
        f matches ObjectFault::ProjectRoot { digest, fault } ==> object_error(f)->Snapshot_0
            == "fork project memory root "@ + digest@ + " unreadable: "@ + fault@,
        f matches ObjectFault::CheckpointLifetimeRoot { digest, fault } ==> object_error(
            f,
        )->Snapshot_0 == "checkpoint lifetime root "@ + digest@ + " unreadable: "@ + fault@,
        f matches ObjectFault::CheckpointProjectRoot { digest, fault } ==> object_error(
            f,
        )->Snapshot_0 == "checkpoint project root "@ + digest@ + " unreadable: "@ + fault@,
{
}

} // verus!
