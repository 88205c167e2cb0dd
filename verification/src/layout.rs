//! Where sessions live under a state layout: which one is opened, and how a
//! legacy directory moves in.
use vstd::prelude::*;
use vstd::string::*;
use crate::ids::{Digest, Id128};
use crate::session_error;
use crate::session_error::{SessionError, SessionErrorView};
use crate::text;
use crate::value;
use crate::value::Value;

verus! {

broadcast use value::group_views;

/// The schema of the session manifests that are read and written.
pub const SESSION_MANIFEST_SCHEMA: u32 = 1;

/// The manifest of a session, in its directory.
pub const MANIFEST_NAME: &'static str = "session.json";

/// The log of a session, in its directory.
pub const SESSION_LOG_NAME: &'static str = "events.jsonl.zst";

/// The log of a legacy directory.
pub const LEGACY_LOG_NAME: &'static str = "log.zst";

// ---------- manifests ----------

/// The persisted identity of a session.
#[derive(Debug, Clone, PartialEq, Eq)]
pub struct SessionManifest {
    pub schema: u32,
    pub session: Id128,
    pub log: String,
    /// When the first frame of its log was made; 0 without one.
    pub created_us: u64,
    pub project: Option<Id128>,
}

pub struct SessionManifestView {
    pub schema: u32,
    pub session: Seq<char>,
    pub log: Seq<char>,
    pub created_us: u64,
    pub project: Option<Seq<char>>,
}

impl View for SessionManifest {
    type V = SessionManifestView;

    open spec fn view(&self) -> SessionManifestView {
        SessionManifestView {
            schema: self.schema,
            session: self.session@,
            log: self.log@,
            created_us: self.created_us,
            project: value::opt_view(self.project),
        }
    }
}

impl Value for SessionManifest {
    fn copy(&self) -> (r: Self) {
        SessionManifest {
            schema: self.schema,
            session: self.session.copy(),
            log: self.log.copy(),
            created_us: self.created_us,
            project: value::copy_opt(&self.project),
        }
    }

    fn same(&self, other: &Self) -> (r: bool) {
        self.schema == other.schema
            && self.session.same(&other.session)
            && self.log.same(&other.log)
            && self.created_us == other.created_us
            && value::same_opt(&self.project, &other.project)
    }
}

/// The session that an open resolved to, and the project its manifest binds.
#[derive(Debug, Clone, PartialEq, Eq)]
pub struct ResolvedSession {
    pub id: Id128,
    pub project: Option<Id128>,
}

pub struct ResolvedSessionView {
    pub id: Seq<char>,
    pub project: Option<Seq<char>>,
}

impl View for ResolvedSession {
    type V = ResolvedSessionView;

    open spec fn view(&self) -> ResolvedSessionView {
        ResolvedSessionView {
            id: self.id@,
            project: value::opt_view(self.project),
        }
    }
}

impl Value for ResolvedSession {
    fn copy(&self) -> (r: Self) {
        ResolvedSession {
            id: self.id.copy(),
            project: value::copy_opt(&self.project),
        }
    }

    fn same(&self, other: &Self) -> (r: bool) {
        self.id.same(&other.id)
            && value::same_opt(&self.project, &other.project)
    }
}

/// What was read at the place of a manifest: nothing, a manifest, or why it
/// does not decode.
#[derive(Debug, PartialEq, Eq)]
pub struct ManifestRead {
    pub path: String,
    pub read: Option<Result<SessionManifest, String>>,
}

/// The manifest that was read. One that is there and cannot be used is
/// corrupt: a session is never dropped in silence.
pub open spec fn manifest_of(x: ManifestRead) -> Result<Option<SessionManifestView>, SessionErrorView> {
    match x.read {
        None => Ok(None),
        Some(Err(e)) => Err(
            SessionErrorView::CorruptRecord("session manifest "@ + x.path@ + ": "@ + e@),
        ),
        Some(Ok(m)) => if m@.schema != SESSION_MANIFEST_SCHEMA {
            Err(
                SessionErrorView::CorruptRecord(
                    "session manifest "@ + x.path@ + ": unsupported schema "@ + text::decimal(
                        m@.schema as nat,
                    ),
                ),
            )
        } else {
            Ok(Some(m@))
        },
    }
}

/// Reads a session manifest.
pub fn read_manifest(x: &ManifestRead) -> (r: Result<Option<SessionManifest>, SessionError>)
    ensures
        match r {
            Ok(m) => manifest_of(*x) == Ok::<Option<SessionManifestView>, SessionErrorView>(
                value::opt_view(m),
            ),
            Err(e) => manifest_of(*x) == Err::<Option<SessionManifestView>, SessionErrorView>(
                e@,
            ),
        },
{
    match &x.read {
        None => Ok(None),
        Some(Err(e)) => {
            let mut t = text::cat3("session manifest ", x.path.as_str(), ": ");
            t.append(e.as_str());
            Err(SessionError::CorruptRecord(t))
        },
        Some(Ok(m)) => if m.schema != SESSION_MANIFEST_SCHEMA {
            let mut t = text::cat3("session manifest ", x.path.as_str(), ": unsupported schema ");
            t.append(text::decimal_text(m.schema as u64).as_str());
            Err(SessionError::CorruptRecord(t))
        } else {
            Ok(Some(m.copy()))
        },
    }
}

/// The manifest of a session. `first_frame_us` is when the first frame of its
/// log was made.
pub fn new_manifest(session: &Id128, first_frame_us: Option<u64>, project: &Option<Id128>) -> (r:
    SessionManifest)
    ensures
        r@ == (SessionManifestView {
            schema: SESSION_MANIFEST_SCHEMA,
            session: session@,
            log: SESSION_LOG_NAME@,
            created_us: match first_frame_us {
                Some(t) => t,
                None => 0,
            },
            project: value::opt_view(*project),
        }),
{
    SessionManifest {
        schema: SESSION_MANIFEST_SCHEMA,
        session: session.copy(),
        log: SESSION_LOG_NAME.to_owned(),
        created_us: match first_frame_us {
            Some(t) => t,
            None => 0,
        },
        project: value::copy_opt(project),
    }
}

/// When the first frame of a log was made; nothing for a log without frames.
pub fn first_frame_us(frames: &Vec<u64>) -> (r: Option<u64>)
    ensures
        r == if frames@.len() == 0 {
            None
        } else {
            Some(frames@[0])
        },
{
    if frames.len() == 0 {
        None
    } else {
        Some(frames[0])
    }
}

// ---------- resolution ----------

/// `a` was created after `b`; of two created at once, the one with the greater
/// identity counts as later.
pub open spec fn later(a: SessionManifestView, b: SessionManifestView) -> bool {
    a.created_us > b.created_us || (a.created_us == b.created_us && !text::text_le(
        a.session,
        b.session,
    ))
}

/// The manifest to resume from among those read so far, or the first that is
/// corrupt.
pub open spec fn newest(s: Seq<ManifestRead>) -> Result<Option<SessionManifestView>, SessionErrorView>
    decreases s.len(),
{
    if s.len() == 0 {
        Ok(None)
    } else {
        match newest(s.drop_last()) {
            Err(e) => Err(e),
            Ok(best) => match manifest_of(s.last()) {
                Err(e) => Err(e),
                Ok(None) => Ok(best),
                Ok(Some(m)) => match best {
                    Some(b) => if later(m, b) {
                        Ok(Some(m))
                    } else {
                        Ok(Some(b))
                    },
                    None => Ok(Some(m)),
                },
            },
        }
    }
}

proof fn lemma_error_stays(s: Seq<ManifestRead>, n: int)
    requires
        0 <= n <= s.len(),
        newest(s.take(n)) is Err,
    ensures
        newest(s) == newest(s.take(n)),
    decreases s.len() - n,
{
    if n == s.len() {
        assert(s.take(n) =~= s);
    } else {
        assert(s.take(n + 1).drop_last() =~= s.take(n));
        lemma_error_stays(s, n + 1);
    }
}

pub open spec fn resolved_as(m: Option<SessionManifestView>) -> Option<ResolvedSessionView> {
    match m {
        Some(m) => Some(ResolvedSessionView { id: m.session, project: m.project }),
        None => None,
    }
}

/// Picks the session that was created last. A directory without a manifest is
/// a migration in flight, and is passed over.
pub fn scan_sessions(s: &Vec<ManifestRead>) -> (r: Result<Option<ResolvedSession>, SessionError>)
    ensures
        match (r, newest(s@)) {
            (Ok(x), Ok(m)) => value::opt_view(x) == resolved_as(m),
            (Err(e), Err(f)) => e@ == f,
            _ => false,
        },
{
    let mut best: Option<SessionManifest> = None;
    let mut i: usize = 0;
    assert(s@.take(0) =~= Seq::empty());
    while i < s.len()
        invariant
            i <= s.len(),
            newest(s@.take(i as int)) == Ok::<Option<SessionManifestView>, SessionErrorView>(
                value::opt_view(best),
            ),
        decreases s.len() - i,
    {
        proof {
            assert(s@.take(i + 1).last() == s@[i as int]);
            assert(s@.take(i + 1).drop_last() =~= s@.take(i as int));
        }
        match read_manifest(&s[i]) {
            Err(e) => {
                proof {
                    lemma_error_stays(s@, i + 1);
                }
                return Err(e);
            },
            Ok(None) => {},
            Ok(Some(m)) => {
                let better = match &best {
                    None => true,
                    Some(b) => m.created_us > b.created_us || (m.created_us == b.created_us
                        && !text::at_or_before(m.session.text.as_str(), b.session.text.as_str())),
                };
                if better {
                    best = Some(m);
                }
            },
        }
        i = i + 1;
    }
    assert(s@.take(i as int) =~= s@);
    match best {
        Some(m) => Ok(Some(ResolvedSession { id: m.session, project: m.project })),
        None => Ok(None),
    }
}

/// What an open does to find its session.
#[derive(Debug, Clone, PartialEq, Eq)]
pub enum Resolution {
    /// Migrate the legacy directory, whose identity wins.
    Migrate,
    /// Open the session that was asked for.
    Requested(Id128),
    /// Resume the one that was created last, or start a fresh one.
    Newest,
}

/// Decides how an open finds its session. Migration is opted into: without a
/// legacy directory that holds a log nothing is migrated.
pub fn plan_resolution(legacy_log: bool, requested: &Option<Id128>) -> (r: Resolution)
    ensures
        match r {
            Resolution::Migrate => legacy_log,
            Resolution::Requested(id) => !legacy_log && value::opt_view(*requested) == Some(id@),
            Resolution::Newest => !legacy_log && *requested is None,
        },
{
    if legacy_log {
        return Resolution::Migrate;
    }
    match requested {
        Some(id) => Resolution::Requested(id.copy()),
        None => Resolution::Newest,
    }
}

/// The session that was found, or a fresh one.
pub fn resume_or_fresh(found: Option<ResolvedSession>, fresh: Id128) -> (r: ResolvedSession)
    ensures
        r@ == (match value::opt_view(found) {
            Some(x) => x,
            None => ResolvedSessionView { id: fresh@, project: None },
        }),
{
    match found {
        Some(x) => x,
        None => ResolvedSession { id: fresh, project: None },
    }
}

/// The project that a session binds: the caller's, or the one that its
/// manifest carries.
pub fn bound_project(asked: &Option<Id128>, resolved: &ResolvedSession) -> (r: Option<Id128>)
    ensures
        value::opt_view(r) == (match value::opt_view(*asked) {
            Some(p) => Some(p),
            None => resolved@.project,
        }),
{
    match asked {
        Some(p) => Some(p.copy()),
        None => value::copy_opt(&resolved.project),
    }
}

// ---------- migration ----------

/// A step of a migration. The source is copied, never moved.
#[derive(Debug, Clone, Copy, PartialEq, Eq, Structural)]
pub enum MigrationStep {
    CopyLog,
    CopyObjects,
    CopyState,
    /// Merge the memory into the memory root.
    MergeMemory,
    WriteManifest,
}

pub open spec fn steps_of(
    migrated: bool,
    objects: bool,
    state: bool,
    memory: bool,
) -> Seq<MigrationStep> {
    if migrated {
        Seq::empty()
    } else {
        let a = Seq::empty().push(MigrationStep::CopyLog);
        let b = if objects {
            a.push(MigrationStep::CopyObjects)
        } else {
            a
        };
        let c = if state {
            b.push(MigrationStep::CopyState)
        } else {
            b
        };
        let d = if memory {
            c.push(MigrationStep::MergeMemory)
        } else {
            c
        };
        d.push(MigrationStep::WriteManifest)
    }
}

/// Plans the migration of a legacy directory. Without an identity to recover
/// it is refused. `migrated` says whether the target's manifest is there
/// already; the rest, what the source holds.
pub fn migrate_legacy(
    recovered: Option<Id128>,
    dir: &str,
    migrated: bool,
    objects: bool,
    state: bool,
    memory: bool,
) -> (r: Result<(Id128, Vec<MigrationStep>), SessionError>)
    ensures
        match (r, value::opt_view(recovered)) {
            (Ok((id, steps)), Some(found)) => id@ == found && steps@ == steps_of(
                migrated,
                objects,
                state,
                memory,
            ),
            (Err(e), None) => e@ == session_error::invalid(
                "legacy session dir "@ + dir
                    @ + " carries no recoverable session id; refusing to migrate"@,
            ),
            _ => false,
        },
{
    let id = match recovered {
        Some(id) => id,
        None => return Err(
            SessionError::InvalidInput(
                text::cat3(
                    "legacy session dir ",
                    dir,
                    " carries no recoverable session id; refusing to migrate",
                ),
            ),
        ),
    };
    let mut steps: Vec<MigrationStep> = Vec::new();
    if migrated {
        return Ok((id, steps));
    }
    steps.push(MigrationStep::CopyLog);
    if objects {
        steps.push(MigrationStep::CopyObjects);
    }
    if state {
        steps.push(MigrationStep::CopyState);
    }
    if memory {
        steps.push(MigrationStep::MergeMemory);
    }
    steps.push(MigrationStep::WriteManifest);
    Ok((id, steps))
}

// ---------- packages ----------

/// A store that packages are looked up in.
#[derive(Debug, Clone, Copy, PartialEq, Eq, Structural)]
pub enum PackageStore {
    /// The store that all sessions share.
    Global,
    /// The session's own objects.
    Session,
}

/// The store that a package is read from. Under a layout that is the shared
/// one, with the session's own objects behind it; without one, the session's.
pub fn package_source(
    layout: bool,
    digest: &Digest,
    global: &Vec<Digest>,
    session: &Vec<Digest>,
) -> (r: Option<PackageStore>)
    ensures
        r == if layout && value::views(global@).contains(digest@) {
            Some(PackageStore::Global)
        } else if value::views(session@).contains(digest@) {
            Some(PackageStore::Session)
        } else {
            None
        },
{
    if layout && value::occurs(global, digest) {
        Some(PackageStore::Global)
    } else if value::occurs(session, digest) {
        Some(PackageStore::Session)
    } else {
        None
    }
}

// ---------- laws ----------

/// The manifest is written last, so that a migration that breaks off leaves no
/// session to open; and a second migration does nothing.
pub proof fn law_migrations_are_resumable(objects: bool, state: bool, memory: bool, i: int)
    ensures
        steps_of(false, objects, state, memory).last() == MigrationStep::WriteManifest,
        0 <= i < steps_of(false, objects, state, memory).len() - 1 ==> steps_of(
            false,
            objects,
            state,
            memory,
        )[i] != MigrationStep::WriteManifest,
        steps_of(true, objects, state, memory) == Seq::<MigrationStep>::empty(),
{
}

/// No readable session was created after the one that is resumed.
pub proof fn law_the_newest_session_is_resumed(s: Seq<ManifestRead>, i: int)
    requires
        newest(s) is Ok,
        0 <= i < s.len(),
    ensures
        match (newest(s), manifest_of(s[i])) {
            (Ok(best), Ok(Some(m))) => best matches Some(b) && !later(m, b),
            (Ok(_), Ok(None)) => true,
            _ => false,
        },
    decreases s.len(),
{
    let d = s.drop_last();
    if i < d.len() {
        assert(d[i] == s[i]);
        law_the_newest_session_is_resumed(d, i);
        if let (Ok(Some(b)), Ok(Some(m)), Ok(Some(l))) = (
            newest(d),
            manifest_of(s[i]),
            manifest_of(s.last()),
        ) {
            if later(l, b) && later(m, l) {
                lemma_later_is_transitive(m, l, b);
            }
        }
    } else {
        if let Ok(Some(m)) = manifest_of(s[i]) {
            text::lemma_text_le_total(m.session, m.session);
        }
    }
}

proof fn lemma_later_is_transitive(
    a: SessionManifestView,
    b: SessionManifestView,
    c: SessionManifestView,
)
    requires
        later(a, b),
        later(b, c),
    ensures
        later(a, c),
{
    if a.created_us == c.created_us {
        text::lemma_text_le_total(a.session, b.session);
        text::lemma_text_le_total(b.session, c.session);
        if text::text_le(a.session, c.session) {
            text::lemma_text_le_transitive(b.session, a.session, c.session);
        }
    }
}

/// A manifest counts exactly as it was written: where there is none there is
/// no session, and where it cannot be read or has another schema it is an
/// error.
pub proof fn law_manifests_count_as_written(x: ManifestRead)
    ensures
        x.read is None ==> manifest_of(x) == Ok::<Option<SessionManifestView>, SessionErrorView>(
            None,
        ),
        (x.read is Some && x.read->0 is Err) ==> manifest_of(x) is Err,
        (x.read is Some && x.read->0 is Ok && x.read->0->Ok_0@.schema != 1) ==> manifest_of(
            x,
        ) is Err,
        (x.read is Some && x.read->0 is Ok && x.read->0->Ok_0@.schema == 1) ==> manifest_of(x)
            == Ok::<Option<SessionManifestView>, SessionErrorView>(Some(x.read->0->Ok_0@)),
{
}

/// Of two sessions the one that was created later is resumed, whichever is
/// found first; of two created at once, the one with the greater identity.
pub proof fn law_the_later_session_wins(
    s: Seq<ManifestRead>,
    x: ManifestRead,
    b: SessionManifestView,
    m: SessionManifestView,
)
    requires
        newest(s) == Ok::<Option<SessionManifestView>, SessionErrorView>(Some(b)),
        manifest_of(x) == Ok::<Option<SessionManifestView>, SessionErrorView>(Some(m)),
    ensures
        newest(s.push(x)) == Ok::<Option<SessionManifestView>, SessionErrorView>(
            if m.created_us > b.created_us {
                Some(m)
            } else if m.created_us < b.created_us {
                Some(b)
            } else if text::text_le(m.session, b.session) {
                Some(b)
            } else {
                Some(m)
            },
        ),
{
    assert(s.push(x).drop_last() =~= s);
}

/// A first manifest is taken as it is, one that is missing changes nothing,
/// and one that is corrupt fails the scan.
pub proof fn law_scans_read_every_manifest(s: Seq<ManifestRead>, x: ManifestRead)
    requires
        newest(s) is Ok,
    ensures
        newest(Seq::empty()) == Ok::<Option<SessionManifestView>, SessionErrorView>(None),
        x.read is None ==> newest(s.push(x)) == newest(s),
        manifest_of(x) is Err ==> newest(s.push(x)) is Err && newest(s.push(x))->Err_0
            == manifest_of(x)->Err_0,
        (newest(s)->Ok_0 is None && manifest_of(x) is Ok) ==> newest(s.push(x)) == manifest_of(x),
{
    assert(s.push(x).drop_last() =~= s);
}

/// A resumed session is the one of the manifest, under its project.
pub proof fn law_resumed_sessions_keep_their_project(m: SessionManifestView)
    ensures
        resolved_as(Some(m)) is Some,
        resolved_as(Some(m))->0.id == m.session,
        resolved_as(Some(m))->0.project == m.project,
        resolved_as(None) is None,
{
}

/// A migration copies the log, and of the rest exactly what the legacy
/// directory holds, the log first.
pub proof fn law_migrations_take_what_is_there(objects: bool, state: bool, memory: bool)
    ensures
        ({
            let s = steps_of(false, objects, state, memory);
            &&& s[0] == MigrationStep::CopyLog
            &&& s.contains(MigrationStep::CopyObjects) <==> objects
            &&& s.contains(MigrationStep::CopyState) <==> state
            &&& s.contains(MigrationStep::MergeMemory) <==> memory
            &&& s.no_duplicates()
        }),
{
    let s = steps_of(false, objects, state, memory);
    let n = if objects {
        1int
    } else {
        0
    };
    let k = n + if state {
        1int
    } else {
        0
    };
    if objects {
        assert(s[1] == MigrationStep::CopyObjects);
    }
    if state {
        assert(s[n + 1] == MigrationStep::CopyState);
    }
    if memory {
        assert(s[k + 1] == MigrationStep::MergeMemory);
    }
}

} // verus!
