//! Recovery: what a session reads back from its log when it opens.
use vstd::prelude::*;
use vstd::string::*;
use crate::branch;
use crate::branch::{
    BranchRecord, BranchRecordView, ConfigChoiceRecord, MemoryFollow, MemoryFollowView,
    QuiesceRecord, QuiesceRecordView,
};
use crate::event;
use crate::event::{Codec, CodecView, Event, EventView, LogRecord, LogRecordView};
use crate::ids::Id128;
use crate::json;
use crate::json::{Json, JsonView};
use crate::session_error::{SessionError, SessionErrorView};
use crate::text;
use crate::transition;
use crate::value;
use crate::value::Value;

verus! {

broadcast use value::group_views;

// ---------- records that bear load ----------

/// The kind that a raw line declares, if it can be read at all.
pub open spec fn declared(line: Seq<char>) -> Option<Seq<char>> {
    match json::parsed(line) {
        Some(v) => json::text_member(v, "kind"@),
        None => None,
    }
}

/// What a raw line gives to a scan for some kinds, `decoded` being the record
/// that it decodes to. A line that declares one of the kinds and does not
/// decode is corrupt; any other line that does not decode is passed over.
pub open spec fn decoded_as(
    line: Seq<char>,
    decoded: Result<LogRecord, String>,
    kinds: Seq<Seq<char>>,
) -> Result<Option<LogRecordView>, SessionErrorView> {
    match decoded {
        Ok(r) => Ok(
            if kinds.contains(r@.kind) {
                Some(r@)
            } else {
                None
            },
        ),
        Err(e) => match declared(line) {
            Some(k) => if kinds.contains(k) {
                Err(SessionErrorView::CorruptRecord(k + " record does not decode: "@ + e@))
            } else {
                Ok(None)
            },
            None => Ok(None),
        },
    }
}

fn declared_kind(line: &str) -> (r: Option<String>)
    ensures
        value::opt_view(r) == declared(line@),
{
    match json::read(line) {
        Some(v) => match v.get_text("kind") {
            Some(k) => Some(k.clone()),
            None => None,
        },
        None => None,
    }
}

/// Decodes a line for a scan for some kinds.
pub fn decode_record(line: &str, decoded: &Result<LogRecord, String>, kinds: &Vec<String>) -> (r:
    Result<Option<LogRecord>, SessionError>)
    ensures
        match r {
            Ok(x) => decoded_as(line@, *decoded, value::views(kinds@)) == Ok::<
                Option<LogRecordView>,
                SessionErrorView,
            >(value::opt_view(x)),
            Err(e) => decoded_as(line@, *decoded, value::views(kinds@)) == Err::<
                Option<LogRecordView>,
                SessionErrorView,
            >(e@),
        },
{
    match decoded {
        Ok(x) => if value::occurs(kinds, &x.kind) {
            Ok(Some(x.copy()))
        } else {
            Ok(None)
        },
        Err(e) => match declared_kind(line) {
            Some(k) => if value::occurs(kinds, &k) {
                Err(
                    SessionError::CorruptRecord(
                        text::cat3(k.as_str(), " record does not decode: ", e.as_str()),
                    ),
                )
            } else {
                Ok(None)
            },
            None => Ok(None),
        },
    }
}

// ---------- branches ----------

/// The fields of a transition's payload; those that were nullable once are
/// optional.
#[derive(Debug, Clone, PartialEq, Eq)]
pub struct BranchWire {
    pub branch: Id128,
    pub from_branch: Option<Id128>,
    pub frontier_seq: u64,
    pub follow: Option<MemoryFollow>,
    pub config_choice: Option<ConfigChoiceRecord>,
    pub quiesce: Option<QuiesceRecord>,
}

/// The branch that a transition at `seq` records.
pub open spec fn branch_of(seq: u64, wire: BranchWire) -> BranchRecordView {
    BranchRecordView {
        id: wire.branch@,
        from: value::opt_view(wire.from_branch),
        frontier_seq: wire.frontier_seq,
        transition_seq: seq,
        follow: match wire.follow {
            Some(f) => f@,
            None => MemoryFollowView::FollowHead,
        },
        config_choice: match wire.config_choice {
            Some(c) => c@,
            None => branch::no_choice(),
        },
        quiesce: match wire.quiesce {
            Some(q) => q@,
            None => QuiesceRecordView { cancelled: Seq::empty(), ambiguous: Seq::empty() },
        },
    }
}

/// A line of the log, what it decodes to, and what its payload reads as.
#[derive(Debug, PartialEq, Eq)]
pub struct BranchLine {
    pub line: String,
    pub decoded: Result<LogRecord, String>,
    pub wire: Result<BranchWire, String>,
}

pub open spec fn branch_kinds() -> Seq<Seq<char>> {
    Seq::empty().push("branch_transition"@)
}

pub open spec fn malformed(kind: Seq<char>, seq: u64, e: Seq<char>) -> SessionErrorView {
    SessionErrorView::CorruptRecord(
        kind + " at seq "@ + text::decimal(seq as nat) + ": malformed payload: "@ + e,
    )
}

/// What a line gives: a branch, nothing, or an error.
pub open spec fn branch_at(x: BranchLine) -> Result<Option<BranchRecordView>, SessionErrorView> {
    match decoded_as(x.line@, x.decoded, branch_kinds()) {
        Err(e) => Err(e),
        Ok(None) => Ok(None),
        Ok(Some(r)) => match x.wire {
            Ok(wire) => Ok(Some(branch_of(r.seq, wire))),
            Err(e) => Err(malformed("branch_transition"@, r.seq, e@)),
        },
    }
}

/// The branches of a log in its order, or its first corrupt line.
pub open spec fn branches(lines: Seq<BranchLine>) -> Result<Seq<BranchRecordView>, SessionErrorView>
    decreases lines.len(),
{
    if lines.len() == 0 {
        Ok(Seq::empty())
    } else {
        match branches(lines.drop_last()) {
            Err(e) => Err(e),
            Ok(rest) => match branch_at(lines.last()) {
                Err(e) => Err(e),
                Ok(Some(b)) => Ok(rest.push(b)),
                Ok(None) => Ok(rest),
            },
        }
    }
}

proof fn lemma_branch_error_stays(lines: Seq<BranchLine>, n: int)
    requires
        0 <= n <= lines.len(),
        branches(lines.take(n)) is Err,
    ensures
        branches(lines) == branches(lines.take(n)),
    decreases lines.len() - n,
{
    if n == lines.len() {
        assert(lines.take(n) =~= lines);
    } else {
        assert(lines.take(n + 1).drop_last() =~= lines.take(n));
        lemma_branch_error_stays(lines, n + 1);
    }
}

fn copy_branch(seq: u64, wire: &BranchWire) -> (r: BranchRecord)
    ensures
        r@ == branch_of(seq, *wire),
{
    BranchRecord {
        id: wire.branch.copy(),
        from: value::copy_opt(&wire.from_branch),
        frontier_seq: wire.frontier_seq,
        transition_seq: seq,
        follow: match &wire.follow {
            Some(f) => f.copy(),
            None => MemoryFollow::FollowHead,
        },
        config_choice: match &wire.config_choice {
            Some(c) => c.copy(),
            None => ConfigChoiceRecord {
                mode: String::new(),
                current: None,
                historical: None,
                composition: None,
                layers: Vec::new(),
            },
        },
        quiesce: match &wire.quiesce {
            Some(q) => q.copy(),
            None => QuiesceRecord { cancelled: Vec::new(), ambiguous: Vec::new() },
        },
    }
}

fn malformed_text(kind: &str, seq: u64, e: &str) -> (r: SessionError)
    ensures
        r@ == malformed(kind@, seq, e@),
{
    SessionError::CorruptRecord(
        text::cat5(
            kind,
            " at seq ",
            text::decimal_text(seq).as_str(),
            ": malformed payload: ",
            e,
        ),
    )
}

/// Recovers the branches of a log. The log is the authority on branches: a
/// transition that cannot be read is an error, never passed over.
pub fn recover_branches(lines: &Vec<BranchLine>) -> (r: Result<Vec<BranchRecord>, SessionError>)
    ensures
        match r {
            Ok(b) => branches(lines@) == Ok::<Seq<BranchRecordView>, SessionErrorView>(
                value::views(b@),
            ),
            Err(e) => branches(lines@) == Err::<Seq<BranchRecordView>, SessionErrorView>(e@),
        },
{
    let mut kinds: Vec<String> = Vec::new();
    kinds.push("branch_transition".to_owned());
    let mut out: Vec<BranchRecord> = Vec::new();
    let mut i: usize = 0;
    assert(lines@.take(0) =~= Seq::empty());
    while i < lines.len()
        invariant
            i <= lines.len(),
            value::views(kinds@) == branch_kinds(),
            branches(lines@.take(i as int)) == Ok::<Seq<BranchRecordView>, SessionErrorView>(
                value::views(out@),
            ),
        decreases lines.len() - i,
    {
        let x = &lines[i];
        proof {
            assert(lines@.take(i + 1).last() == *x);
            assert(lines@.take(i + 1).drop_last() =~= lines@.take(i as int));
        }
        match decode_record(x.line.as_str(), &x.decoded, &kinds) {
            Err(e) => {
                proof {
                    lemma_branch_error_stays(lines@, i + 1);
                }
                return Err(e);
            },
            Ok(None) => {},
            Ok(Some(record)) => match &x.wire {
                Ok(wire) => out.push(copy_branch(record.seq, wire)),
                Err(e) => {
                    proof {
                        lemma_branch_error_stays(lines@, i + 1);
                    }
                    return Err(malformed_text("branch_transition", record.seq, e.as_str()));
                },
            },
        }
        i = i + 1;
    }
    assert(lines@.take(i as int) =~= lines@);
    Ok(out)
}

// ---------- the breaker ----------

/// A line of the log, what it decodes to, and the trip that its payload reads
/// as.
#[derive(Debug, PartialEq, Eq)]
pub struct TripLine {
    pub line: String,
    pub decoded: Result<LogRecord, String>,
    pub trip: Result<Json, String>,
}

pub open spec fn trip_kinds() -> Seq<Seq<char>> {
    Seq::empty().push("breaker_tripped"@).push("cognition_resumed"@)
}

/// The pause after one more line.
pub open spec fn trip_after(pause: Option<JsonView>, x: TripLine) -> Result<
    Option<JsonView>,
    SessionErrorView,
> {
    match decoded_as(x.line@, x.decoded, trip_kinds()) {
        Err(e) => Err(e),
        Ok(None) => Ok(pause),
        Ok(Some(r)) => if r.kind == "breaker_tripped"@ {
            match x.trip {
                Ok(t) => Ok(Some(t@)),
                Err(e) => Err(malformed("breaker_tripped"@, r.seq, e@)),
            }
        } else {
            Ok(None)
        },
    }
}

/// The pause that a log leaves: the last trip without a later resume, or the
/// first corrupt line.
pub open spec fn standing_trip(lines: Seq<TripLine>) -> Result<Option<JsonView>, SessionErrorView>
    decreases lines.len(),
{
    if lines.len() == 0 {
        Ok(None)
    } else {
        match standing_trip(lines.drop_last()) {
            Err(e) => Err(e),
            Ok(pause) => trip_after(pause, lines.last()),
        }
    }
}

proof fn lemma_trip_error_stays(lines: Seq<TripLine>, n: int)
    requires
        0 <= n <= lines.len(),
        standing_trip(lines.take(n)) is Err,
    ensures
        standing_trip(lines) == standing_trip(lines.take(n)),
    decreases lines.len() - n,
{
    if n == lines.len() {
        assert(lines.take(n) =~= lines);
    } else {
        assert(lines.take(n + 1).drop_last() =~= lines.take(n));
        lemma_trip_error_stays(lines, n + 1);
    }
}

/// Recovers the pause of a log: a trip pauses cognition until an explicit
/// resume, across reopens.
pub fn recover_trip(lines: &Vec<TripLine>) -> (r: Result<Option<Json>, SessionError>)
    ensures
        match r {
            Ok(t) => standing_trip(lines@) == Ok::<Option<JsonView>, SessionErrorView>(
                value::opt_view(t),
            ),
            Err(e) => standing_trip(lines@) == Err::<Option<JsonView>, SessionErrorView>(e@),
        },
{
    let mut kinds: Vec<String> = Vec::new();
    kinds.push("breaker_tripped".to_owned());
    kinds.push("cognition_resumed".to_owned());
    let mut pause: Option<Json> = None;
    let mut i: usize = 0;
    assert(lines@.take(0) =~= Seq::empty());
    while i < lines.len()
        invariant
            i <= lines.len(),
            value::views(kinds@) == trip_kinds(),
            standing_trip(lines@.take(i as int)) == Ok::<Option<JsonView>, SessionErrorView>(
                value::opt_view(pause),
            ),
        decreases lines.len() - i,
    {
        let x = &lines[i];
        proof {
            assert(lines@.take(i + 1).last() == *x);
            assert(lines@.take(i + 1).drop_last() =~= lines@.take(i as int));
        }
        match decode_record(x.line.as_str(), &x.decoded, &kinds) {
            Err(e) => {
                proof {
                    lemma_trip_error_stays(lines@, i + 1);
                }
                return Err(e);
            },
            Ok(None) => {},
            Ok(Some(record)) => {
                if text::same_text(record.kind.as_str(), "breaker_tripped") {
                    match &x.trip {
                        Ok(t) => pause = Some(t.copy()),
                        Err(e) => {
                            proof {
                                lemma_trip_error_stays(lines@, i + 1);
                            }
                            return Err(
                                malformed_text("breaker_tripped", record.seq, e.as_str()),
                            );
                        },
                    }
                } else {
                    pause = None;
                }
            },
        }
        i = i + 1;
    }
    assert(lines@.take(i as int) =~= lines@);
    Ok(pause)
}

// ---------- backlinks ----------

/// The log links back to the transition.
pub open spec fn is_backed(log: Seq<LogRecordView>, transition: Seq<char>) -> bool {
    exists|i: int|
        0 <= i < log.len() && (#[trigger] log[i]).kind == "memory_transition_backlink"@
            && json::text_member(log[i].payload, "transition_id"@) == Some(transition)
}

/// The backlinks that are missing for the transitions of a scope.
pub open spec fn missing_backlinks(
    log: Seq<LogRecordView>,
    transitions: Seq<Seq<char>>,
    scope: JsonView,
) -> Seq<EventView>
    decreases transitions.len(),
{
    if transitions.len() == 0 {
        Seq::empty()
    } else {
        let rest = missing_backlinks(log, transitions.drop_last(), scope);
        if is_backed(log, transitions.last()) {
            rest
        } else {
            rest.push(transition::backlink(transitions.last(), scope))
        }
    }
}

fn backed(log: &Vec<LogRecord>, transition: &Id128) -> (r: bool)
    ensures
        r == is_backed(value::views(log@), transition@),
{
    let ghost all = value::views(log@);
    let mut i: usize = 0;
    while i < log.len()
        invariant
            i <= log.len(),
            all == value::views(log@),
            forall|j: int|
                0 <= j < i ==> !((#[trigger] all[j]).kind == "memory_transition_backlink"@
                    && json::text_member(all[j].payload, "transition_id"@) == Some(transition@)),
        decreases log.len() - i,
    {
        assert(all[i as int] == log@[i as int]@);
        if text::same_text(log[i].kind.as_str(), "memory_transition_backlink") {
            if let Some(t) = log[i].payload.get_text("transition_id") {
                if t.same(&transition.text) {
                    return true;
                }
            }
        }
        i = i + 1;
    }
    false
}

/// The backlinks that a session owes for the transitions it originated in one
/// scope.
pub fn pending_backlinks(log: &Vec<LogRecord>, transitions: &Vec<Id128>, scope: &Json) -> (r: Vec<
    Event,
>)
    ensures
        value::views(r@) == missing_backlinks(
            value::views(log@),
            value::views(transitions@),
            scope@,
        ),
{
    let ghost all = value::views(transitions@);
    let mut out: Vec<Event> = Vec::new();
    let mut i: usize = 0;
    assert(all.take(0) =~= Seq::empty());
    while i < transitions.len()
        invariant
            i <= transitions.len(),
            all == value::views(transitions@),
            value::views(out@) == missing_backlinks(
                value::views(log@),
                all.take(i as int),
                scope@,
            ),
        decreases transitions.len() - i,
    {
        proof {
            assert(all.take(i + 1).last() == transitions@[i as int]@);
            assert(all.take(i + 1).drop_last() =~= all.take(i as int));
        }
        if !backed(log, &transitions[i]) {
            out.push(transition::backlink_event(&transitions[i], scope));
        }
        i = i + 1;
    }
    assert(all.take(i as int) =~= all);
    out
}

// ---------- identity ----------

/// The session that the first proposal of a log is owned by.
pub open spec fn proposer(log: Seq<LogRecordView>, codec: CodecView) -> Option<Seq<char>>
    decreases log.len(),
{
    if log.len() == 0 {
        None
    } else {
        let r = log[0];
        let owner = if r.kind == "memory_proposal"@ {
            match json::member(r.payload, "owner"@) {
                Some(o) => event::id_member(codec, o, "session"@),
                None => None,
            }
        } else {
            None
        };
        if owner is Some {
            owner
        } else {
            proposer(log.drop_first(), codec)
        }
    }
}

/// The session that the first transition of a scope originates from.
pub open spec fn originator(transitions: Seq<LogRecordView>, codec: CodecView) -> Option<Seq<char>>
    decreases transitions.len(),
{
    if transitions.len() == 0 {
        None
    } else {
        match event::id_member(codec, transitions[0].payload, "origin_session"@) {
            Some(id) => Some(id),
            None => originator(transitions.drop_first(), codec),
        }
    }
}

/// The first originator among several scopes.
pub open spec fn first_originator(scopes: Seq<Vec<LogRecord>>, codec: CodecView) -> Option<
    Seq<char>,
>
    decreases scopes.len(),
{
    if scopes.len() == 0 {
        None
    } else {
        match originator(value::views(scopes[0]@), codec) {
            Some(id) => Some(id),
            None => first_originator(scopes.drop_first(), codec),
        }
    }
}

/// The first entry that could be read.
pub open spec fn first_entry(entries: Seq<Option<Id128>>) -> Option<Seq<char>>
    decreases entries.len(),
{
    if entries.len() == 0 {
        None
    } else {
        match entries[0] {
            Some(id) => Some(id@),
            None => first_entry(entries.drop_first()),
        }
    }
}

pub open spec fn or_else(a: Option<Seq<char>>, b: Option<Seq<char>>) -> Option<Seq<char>> {
    match a {
        Some(x) => Some(x),
        None => b,
    }
}

/// The identity that a session's directory carries: the first marker that it
/// left, in this order.
pub open spec fn recovered_id(
    log: Seq<LogRecordView>,
    lifetime: Seq<LogRecordView>,
    projects: Seq<Vec<LogRecord>>,
    registry_stream: Seq<Option<Id128>>,
    registry_lines: Seq<Option<Id128>>,
    codec: CodecView,
) -> Option<Seq<char>> {
    or_else(
        proposer(log, codec),
        or_else(
            originator(lifetime, codec),
            or_else(
                first_originator(projects, codec),
                or_else(first_entry(registry_stream), first_entry(registry_lines)),
            ),
        ),
    )
}

fn find_proposer(log: &Vec<LogRecord>, codec: &Codec) -> (r: Option<Id128>)
    ensures
        value::opt_view(r) == proposer(value::views(log@), codec@),
{
    let ghost all = value::views(log@);
    let mut i: usize = 0;
    assert(all.skip(0) =~= all);
    while i < log.len()
        invariant
            i <= log.len(),
            all == value::views(log@),
            proposer(all, codec@) == proposer(all.skip(i as int), codec@),
        decreases log.len() - i,
    {
        proof {
            assert(all.skip(i as int)[0] == log@[i as int]@);
            assert(all.skip(i as int).drop_first() =~= all.skip(i + 1));
        }
        if text::same_text(log[i].kind.as_str(), "memory_proposal") {
            if let Some(owner) = log[i].payload.get("owner") {
                if let Some(id) = codec.id_in(owner, "session") {
                    return Some(id);
                }
            }
        }
        i = i + 1;
    }
    None
}

fn find_originator(log: &Vec<LogRecord>, codec: &Codec) -> (r: Option<Id128>)
    ensures
        value::opt_view(r) == originator(value::views(log@), codec@),
{
    let ghost all = value::views(log@);
    let mut i: usize = 0;
    assert(all.skip(0) =~= all);
    while i < log.len()
        invariant
            i <= log.len(),
            all == value::views(log@),
            originator(all, codec@) == originator(all.skip(i as int), codec@),
        decreases log.len() - i,
    {
        proof {
            assert(all.skip(i as int)[0] == log@[i as int]@);
            assert(all.skip(i as int).drop_first() =~= all.skip(i + 1));
        }
        if let Some(id) = codec.id_in(&log[i].payload, "origin_session") {
            return Some(id);
        }
        i = i + 1;
    }
    None
}

fn find_entry(entries: &Vec<Option<Id128>>) -> (r: Option<Id128>)
    ensures
        value::opt_view(r) == first_entry(entries@),
{
    let mut i: usize = 0;
    assert(entries@.skip(0) =~= entries@);
    while i < entries.len()
        invariant
            i <= entries.len(),
            first_entry(entries@) == first_entry(entries@.skip(i as int)),
        decreases entries.len() - i,
    {
        proof {
            assert(entries@.skip(i as int)[0] == entries@[i as int]);
            assert(entries@.skip(i as int).drop_first() =~= entries@.skip(i + 1));
        }
        if let Some(id) = &entries[i] {
            return Some(id.copy());
        }
        i = i + 1;
    }
    None
}

/// The identity that a session's directory carries, if any: the owner of a
/// proposal in its log, the origin of a transition of the lifetime scope or of
/// a project, the creator named by the project registry. A file that is not
/// there gives an empty list.
pub fn recover_session_id(
    log: &Vec<LogRecord>,
    lifetime: &Vec<LogRecord>,
    projects: &Vec<Vec<LogRecord>>,
    registry_stream: &Vec<Option<Id128>>,
    registry_lines: &Vec<Option<Id128>>,
    codec: &Codec,
) -> (r: Option<Id128>)
    ensures
        value::opt_view(r) == recovered_id(
            value::views(log@),
            value::views(lifetime@),
            projects@,
            registry_stream@,
            registry_lines@,
            codec@,
        ),
{
    if let Some(id) = find_proposer(log, codec) {
        return Some(id);
    }
    if let Some(id) = find_originator(lifetime, codec) {
        return Some(id);
    }
    let mut i: usize = 0;
    assert(projects@.skip(0) =~= projects@);
    while i < projects.len()
        invariant
            i <= projects.len(),
            proposer(value::views(log@), codec@) is None,
            originator(value::views(lifetime@), codec@) is None,
            first_originator(projects@, codec@) == first_originator(
                projects@.skip(i as int),
                codec@,
            ),
        decreases projects.len() - i,
    {
        proof {
            assert(projects@.skip(i as int)[0] == projects@[i as int]);
            assert(projects@.skip(i as int).drop_first() =~= projects@.skip(i + 1));
        }
        if let Some(id) = find_originator(&projects[i], codec) {
            return Some(id);
        }
        i = i + 1;
    }
    if let Some(id) = find_entry(registry_stream) {
        return Some(id);
    }
    find_entry(registry_lines)
}

/// The first project that a log binds.
pub open spec fn bound_project(log: Seq<LogRecordView>, codec: CodecView) -> Option<Seq<char>>
    decreases log.len(),
{
    if log.len() == 0 {
        None
    } else if log[0].kind == "project_bound"@ && event::id_member(
        codec,
        log[0].payload,
        "project_id"@,
    ) is Some {
        event::id_member(codec, log[0].payload, "project_id"@)
    } else {
        bound_project(log.drop_first(), codec)
    }
}

/// The project that a log binds, so that its memory is wired up again.
pub fn recover_bound_project(log: &Vec<LogRecord>, codec: &Codec) -> (r: Option<Id128>)
    ensures
        value::opt_view(r) == bound_project(value::views(log@), codec@),
{
    let ghost all = value::views(log@);
    let mut i: usize = 0;
    assert(all.skip(0) =~= all);
    while i < log.len()
        invariant
            i <= log.len(),
            all == value::views(log@),
            bound_project(all, codec@) == bound_project(all.skip(i as int), codec@),
        decreases log.len() - i,
    {
        proof {
            assert(all.skip(i as int)[0] == log@[i as int]@);
            assert(all.skip(i as int).drop_first() =~= all.skip(i + 1));
        }
        if text::same_text(log[i].kind.as_str(), "project_bound") {
            if let Some(id) = codec.id_in(&log[i].payload, "project_id") {
                return Some(id);
            }
        }
        i = i + 1;
    }
    None
}

// ---------- laws ----------

/// A load-bearing record is never lost in silence: a line that declares one
/// of the kinds gives a record of that kind or an error, unless it decodes to
/// another kind.
pub proof fn law_load_bearing_lines_fail_loud(
    line: Seq<char>,
    decoded: Result<LogRecord, String>,
    kinds: Seq<Seq<char>>,
)
    requires
        declared(line) matches Some(k) && kinds.contains(k),
        decoded matches Ok(r) ==> declared(line) == Some(r@.kind),
    ensures
        !(decoded_as(line, decoded, kinds) matches Ok(r) && r is None),
{
}

/// A pause outlives everything but a resume: lines that are neither a trip
/// nor a resume leave it as it is.
pub proof fn law_only_a_resume_lifts_the_pause(pause: JsonView, x: TripLine)
    requires
        trip_after(Some(pause), x) == Ok::<Option<JsonView>, SessionErrorView>(None),
    ensures
        x.decoded matches Ok(r) && r@.kind == "cognition_resumed"@,
{
    reveal_strlit("breaker_tripped");
    reveal_strlit("cognition_resumed");
    let kinds = trip_kinds();
    if let Ok(r) = x.decoded {
        if kinds.contains(r@.kind) {
            let k = choose|k: int| 0 <= k < kinds.len() && kinds[k] == r@.kind;
            assert(k == 0 || k == 1);
        }
    }
}

/// Backlinks are made once: a transition that the log links back to is not
/// owed again.
pub proof fn law_backlinks_are_made_once(
    log: Seq<LogRecordView>,
    transitions: Seq<Seq<char>>,
    scope: JsonView,
)
    requires
        forall|i: int| 0 <= i < transitions.len() ==> is_backed(log, #[trigger] transitions[i]),
    ensures
        missing_backlinks(log, transitions, scope) == Seq::<EventView>::empty(),
    decreases transitions.len(),
{
    if transitions.len() > 0 {
        let rest = transitions.drop_last();
        assert forall|i: int| 0 <= i < rest.len() implies is_backed(log, #[trigger] rest[i]) by {
            assert(rest[i] == transitions[i]);
        }
        law_backlinks_are_made_once(log, rest, scope);
        assert(is_backed(log, transitions[transitions.len() - 1]));
    }
}

/// A line gives a record exactly if it decodes to one of the kinds, and an error
/// exactly if it declares one of them and does not decode.
pub proof fn law_scans_are_exact(
    line: Seq<char>,
    decoded: Result<LogRecord, String>,
    kinds: Seq<Seq<char>>,
)
    ensures
        decoded matches Ok(r) ==> decoded_as(line, decoded, kinds) == Ok::<
            Option<LogRecordView>,
            SessionErrorView,
        >(
            if kinds.contains(r@.kind) {
                Some(r@)
            } else {
                None
            },
        ),
        decoded is Err ==> (decoded_as(line, decoded, kinds) is Err <==> (
        declared(line) matches Some(k) && kinds.contains(k))),
        decoded is Err && decoded_as(line, decoded, kinds) is Err ==> decoded_as(
            line,
            decoded,
            kinds,
        )->Err_0 is CorruptRecord,
{
}

/// A recovered branch is what its transition recorded, at the seq of the
/// transition.
pub proof fn law_branches_are_recovered_as_recorded(seq: u64, wire: BranchWire)
    ensures
        ({
            let b = branch_of(seq, wire);
            &&& b.id == wire.branch@
            &&& b.from == value::opt_view(wire.from_branch)
            &&& b.frontier_seq == wire.frontier_seq
            &&& b.transition_seq == seq
            &&& wire.follow matches Some(f) ==> b.follow == f@
            &&& wire.follow is None ==> b.follow is FollowHead
            &&& wire.config_choice matches Some(c) ==> b.config_choice == c@
            &&& wire.quiesce matches Some(q) ==> b.quiesce == q@
        }),
{
}

/// Every transition of a log is recovered, in its order: one more line adds its
/// branch, nothing where it is no transition, and a corrupt one fails the whole.
pub proof fn law_every_transition_is_recovered(lines: Seq<BranchLine>, x: BranchLine)
    ensures
        branches(Seq::empty()) == Ok::<Seq<BranchRecordView>, SessionErrorView>(Seq::empty()),
        branches(lines) is Err ==> branches(lines.push(x)) == branches(lines),
        branches(lines) matches Ok(rest) ==> {
            &&& x.decoded matches Ok(r) ==> {
                &&& r@.kind != "branch_transition"@ ==> branches(lines.push(x)) == branches(lines)
                &&& r@.kind == "branch_transition"@ ==> (x.wire matches Ok(w) ==> branches(
                    lines.push(x),
                ) == Ok::<Seq<BranchRecordView>, SessionErrorView>(rest.push(branch_of(r@.seq, w))))
                &&& r@.kind == "branch_transition"@ && x.wire is Err ==> branches(
                    lines.push(x),
                ) is Err
            }
            &&& x.decoded is Err && declared(x.line@) == Some("branch_transition"@) ==> branches(
                lines.push(x),
            ) is Err
            &&& x.decoded is Err && declared(x.line@) != Some("branch_transition"@) ==> branches(
                lines.push(x),
            ) == branches(lines)
        },
{
    assert(lines.push(x).drop_last() =~= lines);
    assert(branch_kinds()[0] == "branch_transition"@);
    assert forall|k: Seq<char>| #[trigger] branch_kinds().contains(k) implies k
        == "branch_transition"@ by {}
}

/// A trip pauses and a resume lifts the pause; any other line leaves it.
pub proof fn law_trips_pause_and_resumes_lift(lines: Seq<TripLine>, x: TripLine)
    ensures
        standing_trip(Seq::empty()) == Ok::<Option<JsonView>, SessionErrorView>(None),
        standing_trip(lines) matches Ok(pause) ==> {
            &&& x.decoded matches Ok(r) ==> {
                &&& r@.kind == "breaker_tripped"@ ==> (x.trip matches Ok(t) ==> standing_trip(
                    lines.push(x),
                ) == Ok::<Option<JsonView>, SessionErrorView>(Some(t@)))
                &&& r@.kind == "breaker_tripped"@ && x.trip is Err ==> standing_trip(
                    lines.push(x),
                ) is Err
                &&& r@.kind == "cognition_resumed"@ ==> standing_trip(lines.push(x)) == Ok::<
                    Option<JsonView>,
                    SessionErrorView,
                >(None)
                &&& r@.kind != "breaker_tripped"@ && r@.kind != "cognition_resumed"@
                    ==> standing_trip(lines.push(x)) == standing_trip(lines)
            }
            &&& x.decoded is Err && (declared(x.line@) == Some("breaker_tripped"@) || declared(
                x.line@,
            ) == Some("cognition_resumed"@)) ==> standing_trip(lines.push(x)) is Err
            &&& x.decoded is Err && declared(x.line@) != Some("breaker_tripped"@) && declared(
                x.line@,
            ) != Some("cognition_resumed"@) ==> standing_trip(lines.push(x)) == standing_trip(lines)
        },
        standing_trip(lines) is Err ==> standing_trip(lines.push(x)) == standing_trip(lines),
{
    assert(lines.push(x).drop_last() =~= lines);
    reveal_strlit("breaker_tripped");
    reveal_strlit("cognition_resumed");
    assert("breaker_tripped"@.len() == 15 && "cognition_resumed"@.len() == 17);
    let kinds = trip_kinds();
    assert(kinds[0] == "breaker_tripped"@ && kinds[1] == "cognition_resumed"@);
    assert forall|k: Seq<char>| #[trigger] kinds.contains(k) implies k == "breaker_tripped"@ || k
        == "cognition_resumed"@ by {
        let i = choose|i: int| 0 <= i < kinds.len() && kinds[i] == k;
        assert(i == 0 || i == 1);
    }
}

/// A backlink is owed for every transition that the log does not link back to, in
/// their order, and for no other.
pub proof fn law_missing_backlinks_are_owed(
    log: Seq<LogRecordView>,
    transitions: Seq<Seq<char>>,
    t: Seq<char>,
    scope: JsonView,
)
    ensures
        missing_backlinks(log, Seq::empty(), scope).len() == 0,
        missing_backlinks(log, transitions.push(t), scope) == if exists|i: int|
            0 <= i < log.len() && (#[trigger] log[i]).kind == "memory_transition_backlink"@
                && json::text_member(log[i].payload, "transition_id"@) == Some(t) {
            missing_backlinks(log, transitions, scope)
        } else {
            missing_backlinks(log, transitions, scope).push(transition::backlink(t, scope))
        },
{
    assert(transitions.push(t).drop_last() =~= transitions);
}

/// A session is recognised by the first marker that it left: the owner of a
/// proposal, the origin of a transition of the lifetime scope, of a project, the
/// creator in the registry's stream, that in its lines.
pub proof fn law_identities_are_recovered_in_order(
    log: Seq<LogRecordView>,
    lifetime: Seq<LogRecordView>,
    projects: Seq<Vec<LogRecord>>,
    stream: Seq<Option<Id128>>,
    lines: Seq<Option<Id128>>,
    codec: CodecView,
)
    ensures
        ({
            let id = recovered_id(log, lifetime, projects, stream, lines, codec);
            let a = proposer(log, codec);
            let b = originator(lifetime, codec);
            let c = first_originator(projects, codec);
            let d = first_entry(stream);
            let e = first_entry(lines);
            &&& a is Some ==> id == a
            &&& a is None && b is Some ==> id == b
            &&& a is None && b is None && c is Some ==> id == c
            &&& a is None && b is None && c is None && d is Some ==> id == d
            &&& a is None && b is None && c is None && d is None ==> id == e
        }),
{
}

/// Each marker is the first that can be read, and none is missed.
pub proof fn law_the_first_marker_counts(
    r: LogRecordView,
    log: Seq<LogRecordView>,
    scope: Vec<LogRecord>,
    scopes: Seq<Vec<LogRecord>>,
    entry: Option<Id128>,
    entries: Seq<Option<Id128>>,
    codec: CodecView,
)
    ensures
        proposer(Seq::empty(), codec) is None,
        proposer(seq![r] + log, codec) == if r.kind == "memory_proposal"@ && (json::member(
            r.payload,
            "owner"@,
        ) matches Some(o) && event::id_member(codec, o, "session"@) is Some) {
            event::id_member(codec, json::member(r.payload, "owner"@)->0, "session"@)
        } else {
            proposer(log, codec)
        },
        originator(Seq::empty(), codec) is None,
        originator(seq![r] + log, codec) == if event::id_member(
            codec,
            r.payload,
            "origin_session"@,
        ) is Some {
            event::id_member(codec, r.payload, "origin_session"@)
        } else {
            originator(log, codec)
        },
        first_originator(Seq::empty(), codec) is None,
        first_originator(seq![scope] + scopes, codec) == if originator(
            value::views(scope@),
            codec,
        ) is Some {
            originator(value::views(scope@), codec)
        } else {
            first_originator(scopes, codec)
        },
        first_entry(Seq::empty()) is None,
        first_entry(seq![entry] + entries) == match entry {
            Some(id) => Some(id@),
            None => first_entry(entries),
        },
        bound_project(Seq::empty(), codec) is None,
        bound_project(seq![r] + log, codec) == if r.kind == "project_bound"@ && event::id_member(
            codec,
            r.payload,
            "project_id"@,
        ) is Some {
            event::id_member(codec, r.payload, "project_id"@)
        } else {
            bound_project(log, codec)
        },
{
    assert((seq![r] + log).drop_first() =~= log);
    assert((seq![scope] + scopes).drop_first() =~= scopes);
    assert((seq![entry] + entries).drop_first() =~= entries);
}

} // verus!
