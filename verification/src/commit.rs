//! The commit path's own bookkeeping: what is refused, the ring of recent
//! events, and the fragments that compaction covers.
use vstd::prelude::*;
use vstd::string::*;
use crate::event;
use crate::event::{Codec, CodecView, LogRecord, LogRecordView};
use crate::hooks::{LiveModule, LiveModuleView};
use crate::ids::{Digest, Id128};
use crate::json;
use crate::json::{Json, JsonView};
use crate::session_error;
use crate::session_error::{SessionError, SessionErrorView};
use crate::text;
use crate::value;
use crate::value::Value;

verus! {

broadcast use value::group_views;

/// How many recent events are kept.
pub const RECENT_RING: usize = 64;

/// A committed compaction: the range it covers, its summary, and the fragments that
/// went into it.
#[derive(Debug, Clone, PartialEq, Eq)]
pub struct CompactedRange {
    pub start: u64,
    pub end: u64,
    pub summary_digest: Digest,
    pub covered_fragments: Vec<String>,
}

pub struct CompactedRangeView {
    pub start: u64,
    pub end: u64,
    pub summary_digest: Seq<char>,
    pub covered_fragments: Seq<Seq<char>>,
}

impl View for CompactedRange {
    type V = CompactedRangeView;

    open spec fn view(&self) -> CompactedRangeView {
        CompactedRangeView {
            start: self.start,
            end: self.end,
            summary_digest: self.summary_digest@,
            covered_fragments: value::views(self.covered_fragments@),
        }
    }
}

impl Value for CompactedRange {
    fn copy(&self) -> (r: Self) {
        CompactedRange {
            start: self.start,
            end: self.end,
            summary_digest: self.summary_digest.copy(),
            covered_fragments: value::copy_vec(&self.covered_fragments),
        }
    }

    fn same(&self, other: &Self) -> (r: bool) {
        self.start == other.start
            && self.end == other.end
            && self.summary_digest.same(&other.summary_digest)
            && value::same_vec(&self.covered_fragments, &other.covered_fragments)
    }
}

/// An event with its payload encoded.
#[derive(Debug, Clone, PartialEq, Eq)]
pub struct EncodedEvent {
    pub kind: String,
    pub payload: Json,
}

pub struct EncodedEventView {
    pub kind: Seq<char>,
    pub payload: JsonView,
}

impl View for EncodedEvent {
    type V = EncodedEventView;

    open spec fn view(&self) -> EncodedEventView {
        EncodedEventView {
            kind: self.kind@,
            payload: self.payload@,
        }
    }
}

impl Value for EncodedEvent {
    fn copy(&self) -> (r: Self) {
        EncodedEvent {
            kind: self.kind.copy(),
            payload: self.payload.copy(),
        }
    }

    fn same(&self, other: &Self) -> (r: bool) {
        self.kind.same(&other.kind)
            && self.payload.same(&other.payload)
    }
}

/// A recent event.
#[derive(Debug, Clone, PartialEq, Eq)]
pub struct RecentEvent {
    pub seq: u64,
    pub kind: String,
    pub payload: Json,
}

pub struct RecentEventView {
    pub seq: u64,
    pub kind: Seq<char>,
    pub payload: JsonView,
}

impl View for RecentEvent {
    type V = RecentEventView;

    open spec fn view(&self) -> RecentEventView {
        RecentEventView {
            seq: self.seq,
            kind: self.kind@,
            payload: self.payload@,
        }
    }
}

impl Value for RecentEvent {
    fn copy(&self) -> (r: Self) {
        RecentEvent {
            seq: self.seq,
            kind: self.kind.copy(),
            payload: self.payload.copy(),
        }
    }

    fn same(&self, other: &Self) -> (r: bool) {
        self.seq == other.seq
            && self.kind.same(&other.kind)
            && self.payload.same(&other.payload)
    }
}

/// What the commit path keeps between commits.
#[derive(Debug, Clone, PartialEq, Eq)]
pub struct CommitState {
    pub next_seq: u64,
    pub recent_events: Vec<RecentEvent>,
    pub compacted: Vec<CompactedRange>,
    /// The snapshot that the next events are committed against.
    pub snapshot: Option<Digest>,
}

pub struct CommitStateView {
    pub next_seq: u64,
    pub recent_events: Seq<RecentEventView>,
    pub compacted: Seq<CompactedRangeView>,
    pub snapshot: Option<Seq<char>>,
}

impl View for CommitState {
    type V = CommitStateView;

    open spec fn view(&self) -> CommitStateView {
        CommitStateView {
            next_seq: self.next_seq,
            recent_events: value::views(self.recent_events@),
            compacted: value::views(self.compacted@),
            snapshot: value::opt_view(self.snapshot),
        }
    }
}

/// What a commit wrote.
#[derive(Debug, Clone, PartialEq, Eq)]
pub struct CommitReceipt {
    pub first_seq: u64,
    pub last_seq: u64,
    pub count: u64,
    pub frame_len: u64,
    pub objects: Vec<Digest>,
    /// The snapshot that the events were committed against.
    pub pre_snapshot: Option<Digest>,
    /// The snapshot of the state after them, where they changed it.
    pub post_snapshot: Option<Digest>,
}

pub struct CommitReceiptView {
    pub first_seq: u64,
    pub last_seq: u64,
    pub count: u64,
    pub frame_len: u64,
    pub objects: Seq<Seq<char>>,
    pub pre_snapshot: Option<Seq<char>>,
    pub post_snapshot: Option<Seq<char>>,
}

impl View for CommitReceipt {
    type V = CommitReceiptView;

    open spec fn view(&self) -> CommitReceiptView {
        CommitReceiptView {
            first_seq: self.first_seq,
            last_seq: self.last_seq,
            count: self.count,
            frame_len: self.frame_len,
            objects: value::views(self.objects@),
            pre_snapshot: value::opt_view(self.pre_snapshot),
            post_snapshot: value::opt_view(self.post_snapshot),
        }
    }
}

impl Value for CommitReceipt {
    fn copy(&self) -> (r: Self) {
        CommitReceipt {
            first_seq: self.first_seq,
            last_seq: self.last_seq,
            count: self.count,
            frame_len: self.frame_len,
            objects: value::copy_vec(&self.objects),
            pre_snapshot: value::copy_opt(&self.pre_snapshot),
            post_snapshot: value::copy_opt(&self.post_snapshot),
        }
    }

    fn same(&self, other: &Self) -> (r: bool) {
        self.first_seq == other.first_seq
            && self.last_seq == other.last_seq
            && self.count == other.count
            && self.frame_len == other.frame_len
            && value::same_vec(&self.objects, &other.objects)
            && value::same_opt(&self.pre_snapshot, &other.pre_snapshot)
            && value::same_opt(&self.post_snapshot, &other.post_snapshot)
    }
}

/// A batch that was committed; the snapshot of the state after it is due
/// where it changes the state.
#[derive(Debug, Clone, PartialEq, Eq)]
pub struct PendingCommit {
    pub receipt: CommitReceipt,
    /// The head of the changed state.
    pub state_head: Option<Digest>,
    /// The events as they were committed, for whoever listens.
    pub events: Vec<RecentEvent>,
}

pub struct PendingCommitView {
    pub receipt: CommitReceiptView,
    pub state_head: Option<Seq<char>>,
    pub events: Seq<RecentEventView>,
}

impl View for PendingCommit {
    type V = PendingCommitView;

    open spec fn view(&self) -> PendingCommitView {
        PendingCommitView {
            receipt: self.receipt@,
            state_head: value::opt_view(self.state_head),
            events: value::views(self.events@),
        }
    }
}

// ---------- compaction ----------

/// The texts of a list.
pub open spec fn texts_in(items: Seq<JsonView>) -> Seq<Seq<char>>
    decreases items.len(),
{
    if items.len() == 0 {
        Seq::empty()
    } else {
        match items.last() {
            JsonView::Text(t) => texts_in(items.drop_last()).push(t),
            _ => texts_in(items.drop_last()),
        }
    }
}

/// The two ends of a range.
pub open spec fn range_of(payload: JsonView) -> Option<(u64, u64)> {
    match json::member(payload, "range"@) {
        Some(JsonView::List(items)) => if items.len() == 2 {
            match (items[0], items[1]) {
                (JsonView::Unsigned(a), JsonView::Unsigned(b)) => Some((a, b)),
                _ => None,
            }
        } else {
            None
        },
        _ => None,
    }
}

/// The compaction that an event selects, if it selects one: a range of two
/// ends and a summary.
pub open spec fn compaction_of(kind: Seq<char>, payload: JsonView, codec: CodecView) -> Option<
    CompactedRangeView,
> {
    if kind != "compaction_selected"@ {
        None
    } else {
        match (range_of(payload), event::digest_member(codec, payload, "summary_digest"@)) {
            (Some((start, end)), Some(summary_digest)) => Some(
                CompactedRangeView {
                    start,
                    end,
                    summary_digest,
                    covered_fragments: match json::member(payload, "covered_fragments"@) {
                        Some(JsonView::List(items)) => texts_in(items),
                        _ => Seq::empty(),
                    },
                },
            ),
            _ => None,
        }
    }
}

fn list_texts(items: &Vec<Json>) -> (r: Vec<String>)
    ensures
        value::views(r@) == texts_in(value::views(items@)),
{
    let ghost all = value::views(items@);
    let mut out: Vec<String> = Vec::new();
    let mut i: usize = 0;
    assert(all.take(0) =~= Seq::empty());
    while i < items.len()
        invariant
            i <= items.len(),
            all == value::views(items@),
            value::views(out@) == texts_in(all.take(i as int)),
        decreases items.len() - i,
    {
        proof {
            assert(all.take(i + 1).last() == items@[i as int]@);
            assert(all.take(i + 1).drop_last() =~= all.take(i as int));
        }
        if let Json::Text(t) = &items[i] {
            out.push(t.clone());
        }
        i = i + 1;
    }
    assert(all.take(i as int) =~= all);
    out
}

fn read_range(payload: &Json) -> (r: Option<(u64, u64)>)
    ensures
        r == range_of(payload@),
{
    match payload.get("range") {
        Some(Json::List(items)) => {
            proof {
                json::lemma_list_view(items@);
            }
            if items.len() == 2 {
                assert(value::views(items@)[0] == items@[0]@);
                assert(value::views(items@)[1] == items@[1]@);
                match (&items[0], &items[1]) {
                    (Json::Unsigned(a), Json::Unsigned(b)) => Some((*a, *b)),
                    _ => None,
                }
            } else {
                None
            }
        },
        _ => None,
    }
}

fn read_compaction(kind: &String, payload: &Json, codec: &Codec) -> (r: Option<CompactedRange>)
    ensures
        value::opt_view(r) == compaction_of(kind@, payload@, codec@),
{
    if !text::same_text(kind.as_str(), "compaction_selected") {
        return None;
    }
    match (read_range(payload), codec.digest_in(payload, "summary_digest")) {
        (Some((start, end)), Some(summary_digest)) => {
            let covered_fragments = match payload.get("covered_fragments") {
                Some(Json::List(items)) => {
                    proof {
                        json::lemma_list_view(items@);
                    }
                    list_texts(items)
                },
                _ => Vec::new(),
            };
            Some(CompactedRange { start, end, summary_digest, covered_fragments })
        },
        _ => None,
    }
}

/// The compactions that a log selects, in its order.
pub open spec fn compactions_in(log: Seq<LogRecordView>, codec: CodecView) -> Seq<
    CompactedRangeView,
>
    decreases log.len(),
{
    if log.len() == 0 {
        Seq::empty()
    } else {
        let rest = compactions_in(log.drop_last(), codec);
        match compaction_of(log.last().kind, log.last().payload, codec) {
            Some(c) => rest.push(c),
            None => rest,
        }
    }
}

/// Recovers the compactions of a log.
pub fn recover_compactions(log: &Vec<LogRecord>, codec: &Codec) -> (r: Vec<CompactedRange>)
    ensures
        value::views(r@) == compactions_in(value::views(log@), codec@),
{
    let ghost all = value::views(log@);
    let mut out: Vec<CompactedRange> = Vec::new();
    let mut i: usize = 0;
    assert(all.take(0) =~= Seq::empty());
    while i < log.len()
        invariant
            i <= log.len(),
            all == value::views(log@),
            value::views(out@) == compactions_in(all.take(i as int), codec@),
        decreases log.len() - i,
    {
        proof {
            assert(all.take(i + 1).last() == log@[i as int]@);
            assert(all.take(i + 1).drop_last() =~= all.take(i as int));
        }
        if let Some(c) = read_compaction(&log[i].kind, &log[i].payload, codec) {
            out.push(c);
        }
        i = i + 1;
    }
    assert(all.take(i as int) =~= all);
    out
}

// ---------- what is refused ----------

/// A compaction covers the fragment.
pub open spec fn covers(compacted: Seq<CompactedRangeView>, fragment: Seq<char>) -> bool {
    exists|i: int|
        0 <= i < compacted.len() && (#[trigger] compacted[i]).covered_fragments.contains(fragment)
}

/// The covered fragment that an event carries.
pub open spec fn stale_fragment(compacted: Seq<CompactedRangeView>, e: EncodedEventView) -> Option<
    Seq<char>,
> {
    match json::text_member(e.payload, "fragment"@) {
        Some(f) => if covers(compacted, f) {
            Some(f)
        } else {
            None
        },
        None => None,
    }
}

/// The first covered fragment that a batch carries.
pub open spec fn first_stale(compacted: Seq<CompactedRangeView>, events: Seq<EncodedEventView>) -> Option<
    Seq<char>,
>
    decreases events.len(),
{
    if events.len() == 0 {
        None
    } else {
        match first_stale(compacted, events.drop_last()) {
            Some(f) => Some(f),
            None => stale_fragment(compacted, events.last()),
        }
    }
}

/// Why a batch is refused: it is empty, or it carries a fragment whose causal
/// parents lie in a compacted range.
pub open spec fn refusal(s: CommitStateView, events: Seq<EncodedEventView>) -> Option<
    SessionErrorView,
> {
    if events.len() == 0 {
        Some(session_error::invalid("empty commit"@))
    } else {
        match first_stale(s.compacted, events) {
            Some(f) => Some(SessionErrorView::CompactionViolation(f)),
            None => None,
        }
    }
}

proof fn lemma_stale_stays(
    compacted: Seq<CompactedRangeView>,
    events: Seq<EncodedEventView>,
    n: int,
)
    requires
        0 <= n <= events.len(),
        first_stale(compacted, events.take(n)) is Some,
    ensures
        first_stale(compacted, events) == first_stale(compacted, events.take(n)),
    decreases events.len() - n,
{
    if n == events.len() {
        assert(events.take(n) =~= events);
    } else {
        assert(events.take(n + 1).drop_last() =~= events.take(n));
        lemma_stale_stays(compacted, events, n + 1);
    }
}

/// The newest of a sequence.
pub open spec fn newest(s: Seq<RecentEventView>, n: nat) -> Seq<RecentEventView> {
    if s.len() > n {
        s.skip(s.len() - n)
    } else {
        s
    }
}

/// The events as they were committed, from `first` on.
pub open spec fn numbered_from(events: Seq<EncodedEventView>, first: u64) -> Seq<RecentEventView> {
    Seq::new(
        events.len(),
        |i: int|
            RecentEventView {
                seq: (first + i) as u64,
                kind: events[i].kind,
                payload: events[i].payload,
            },
    )
}

/// The compactions that a batch selects.
pub open spec fn selected_by(events: Seq<EncodedEventView>, codec: CodecView) -> Seq<
    CompactedRangeView,
>
    decreases events.len(),
{
    if events.len() == 0 {
        Seq::empty()
    } else {
        let rest = selected_by(events.drop_last(), codec);
        match compaction_of(events.last().kind, events.last().payload, codec) {
            Some(c) => rest.push(c),
            None => rest,
        }
    }
}

/// The state after a batch was committed at its next seq.
pub open spec fn advanced(s: CommitStateView, events: Seq<EncodedEventView>, codec: CodecView) -> CommitStateView {
    CommitStateView {
        next_seq: (s.next_seq + events.len()) as u64,
        recent_events: newest(
            s.recent_events + numbered_from(events, s.next_seq),
            RECENT_RING as nat,
        ),
        compacted: s.compacted + selected_by(events, codec),
        snapshot: s.snapshot,
    }
}

/// The receipt of a batch that was committed at the next seq, before any
/// snapshot of the state after it.
pub open spec fn written(
    s: CommitStateView,
    count: nat,
    frame_len: u64,
    objects: Seq<Seq<char>>,
) -> CommitReceiptView {
    CommitReceiptView {
        first_seq: s.next_seq,
        last_seq: (s.next_seq + count - 1) as u64,
        count: count as u64,
        frame_len,
        objects,
        pre_snapshot: s.snapshot,
        post_snapshot: None,
    }
}

/// The state once the snapshot after a batch was pinned: it moves exactly
/// where a state head was given.
pub open spec fn settled(
    s: CommitStateView,
    state_head: Option<Seq<char>>,
    pinned: Option<Seq<char>>,
) -> CommitStateView {
    CommitStateView {
        snapshot: if state_head is Some {
            pinned
        } else {
            s.snapshot
        },
        ..s
    }
}

fn fragment_covered(compacted: &Vec<CompactedRange>, fragment: &String) -> (r: bool)
    ensures
        r == covers(value::views(compacted@), fragment@),
{
    let ghost all = value::views(compacted@);
    let mut i: usize = 0;
    while i < compacted.len()
        invariant
            i <= compacted.len(),
            all == value::views(compacted@),
            forall|j: int|
                0 <= j < i ==> !(#[trigger] all[j]).covered_fragments.contains(fragment@),
        decreases compacted.len() - i,
    {
        assert(all[i as int] == compacted@[i as int]@);
        if value::occurs(&compacted[i].covered_fragments, fragment) {
            return true;
        }
        i = i + 1;
    }
    false
}

impl CommitState {
    /// The state of a session that starts at `next_seq`.
    pub fn new(next_seq: u64, compacted: Vec<CompactedRange>, snapshot: Option<Digest>) -> (r: Self)
        ensures
            r@ == (CommitStateView {
                next_seq,
                recent_events: Seq::empty(),
                compacted: value::views(compacted@),
                snapshot: value::opt_view(snapshot),
            }),
    {
        CommitState { next_seq, recent_events: Vec::new(), compacted, snapshot }
    }

    /// Whether a batch may be committed.
    pub fn check(&self, events: &Vec<EncodedEvent>) -> (r: Result<(), SessionError>)
        ensures
            value::failure(r) == refusal(self@, value::views(events@)),
    {
        if events.len() == 0 {
            return Err(SessionError::InvalidInput("empty commit".to_owned()));
        }
        let ghost all = value::views(events@);
        let mut i: usize = 0;
        assert(all.take(0) =~= Seq::empty());
        while i < events.len()
            invariant
                i <= events.len(),
                all.len() > 0,
                all == value::views(events@),
                first_stale(self@.compacted, all.take(i as int)) is None,
            decreases events.len() - i,
        {
            proof {
                assert(all.take(i + 1).last() == events@[i as int]@);
                assert(all.take(i + 1).drop_last() =~= all.take(i as int));
            }
            if let Some(fragment) = events[i].payload.get_text("fragment") {
                if fragment_covered(&self.compacted, fragment) {
                    proof {
                        lemma_stale_stays(self@.compacted, all, i + 1);
                    }
                    return Err(SessionError::CompactionViolation(fragment.clone()));
                }
            }
            i = i + 1;
        }
        assert(all.take(i as int) =~= all);
        Ok(())
    }

    /// A batch was committed from the next seq on, in a frame of this length
    /// and with these objects. What is due then is the snapshot of the state
    /// with the given head, see [`CommitState::settle`].
    pub fn commit(
        &mut self,
        events: &Vec<EncodedEvent>,
        codec: &Codec,
        state_head: Option<Digest>,
        frame_len: u64,
        objects: Vec<Digest>,
    ) -> (r: PendingCommit)
        requires
            events.len() > 0,
            old(self).next_seq + events.len() <= u64::MAX,
        ensures
            final(self)@ == advanced(old(self)@, value::views(events@), codec@),
            r@ == (PendingCommitView {
                receipt: written(
                    old(self)@,
                    events@.len(),
                    frame_len,
                    value::views(objects@),
                ),
                state_head: value::opt_view(state_head),
                events: numbered_from(value::views(events@), old(self).next_seq),
            }),
    {
        let pre_snapshot = value::copy_opt(&self.snapshot);
        let mut shown: Vec<RecentEvent> = Vec::new();
        let ghost all = value::views(events@);
        let ghost start = self@;
        let ghost grown = start.recent_events + numbered_from(all, start.next_seq);
        let ghost seen = numbered_from(all, start.next_seq);
        let first: u64 = self.next_seq;
        let mut i: usize = 0;
        assert(all.take(0) =~= Seq::empty());
        assert(value::views(shown@) =~= seen.take(0));
        assert(start.compacted + selected_by(all.take(0), codec@) =~= start.compacted);
        assert(grown.take(start.recent_events.len() as int) =~= start.recent_events);
        while i < events.len()
            invariant
                i <= events.len(),
                all == value::views(events@),
                first == start.next_seq,
                first + events.len() <= u64::MAX,
                self.next_seq == first + i,
                value::opt_view(self.snapshot) == start.snapshot,
                seen == numbered_from(all, start.next_seq),
                value::views(shown@) == seen.take(i as int),
                grown == start.recent_events + numbered_from(all, start.next_seq),
                value::views(self.recent_events@) == grown.take(start.recent_events.len() + i),
                value::views(self.compacted@) == start.compacted + selected_by(
                    all.take(i as int),
                    codec@,
                ),
            decreases events.len() - i,
        {
            let e = &events[i];
            let ghost n = start.recent_events.len() + i;
            let ghost prior = value::views(self.compacted@);
            proof {
                assert(all.take(i + 1).last() == e@);
                assert(all.take(i + 1).drop_last() =~= all.take(i as int));
                assert(grown[n as int] == numbered_from(all, start.next_seq)[i as int]);
                assert(grown.take(n + 1) =~= grown.take(n as int).push(grown[n as int]));
            }
            shown.push(
                RecentEvent { seq: self.next_seq, kind: e.kind.clone(), payload: e.payload.copy() },
            );
            assert(seen.take(i + 1) =~= seen.take(i as int).push(seen[i as int]));
            self.recent_events.push(
                RecentEvent { seq: self.next_seq, kind: e.kind.clone(), payload: e.payload.copy() },
            );
            if let Some(c) = read_compaction(&e.kind, &e.payload, codec) {
                self.compacted.push(c);
                assert(prior.push(c@) =~= start.compacted + selected_by(all.take(i + 1), codec@));
            }
            self.next_seq = self.next_seq + 1;
            i = i + 1;
        }
        proof {
            assert(all.take(i as int) =~= all);
            assert(grown.take(grown.len() as int) =~= grown);
            assert(seen.take(i as int) =~= seen);
        }
        let ghost mut gone: int = 0;
        assert(grown.skip(0) =~= grown);
        while self.recent_events.len() > RECENT_RING
            invariant
                0 <= gone <= grown.len(),
                value::views(self.recent_events@) == grown.skip(gone),
                self.recent_events@.len() == grown.len() - gone,
                gone > 0 ==> self.recent_events@.len() >= RECENT_RING,
                self.next_seq == start.next_seq + all.len(),
                value::opt_view(self.snapshot) == start.snapshot,
                value::views(self.compacted@) == start.compacted + selected_by(all, codec@),
            decreases self.recent_events.len(),
        {
            let ghost now = self.recent_events@;
            self.recent_events.remove(0);
            proof {
                assert(value::views(self.recent_events@) =~= value::views(now).remove(0));
                assert(grown.skip(gone).remove(0) =~= grown.skip(gone + 1));
                gone = gone + 1;
            }
        }
        PendingCommit {
            receipt: CommitReceipt {
                first_seq: first,
                last_seq: self.next_seq - 1,
                count: events.len() as u64,
                frame_len,
                objects,
                pre_snapshot,
                post_snapshot: None,
            },
            state_head,
            events: shown,
        }
    }

    /// The commit is complete: `pinned` is the snapshot of the state with the
    /// given head, which becomes the current one. Without a head nothing is
    /// pinned, and the current one stays.
    pub fn settle(&mut self, commit: PendingCommit, pinned: Option<Digest>) -> (r: CommitReceipt)
        requires
            pinned is Some == commit.state_head is Some,
        ensures
            final(self)@ == settled(
                old(self)@,
                commit@.state_head,
                value::opt_view(pinned),
            ),
            r@ == (CommitReceiptView {
                post_snapshot: value::opt_view(pinned),
                ..commit@.receipt
            }),
            r.post_snapshot is Some == commit.state_head is Some,
    {
        if let Some(d) = &pinned {
            self.snapshot = Some(d.copy());
        }
        let receipt = commit.receipt;
        CommitReceipt { post_snapshot: pinned, ..receipt }
    }
}

// ---------- schemas ----------

/// Strictly ascending numbers.
pub open spec fn strictly_ascending(s: Seq<u32>) -> bool {
    forall|i: int, j: int| 0 <= i < j < s.len() ==> #[trigger] s[i] < #[trigger] s[j]
}

fn put_version(out: &mut Vec<u32>, v: u32)
    requires
        strictly_ascending(old(out)@),
    ensures
        strictly_ascending(final(out)@),
        forall|x: u32| #[trigger] final(out)@.contains(x) <==> old(out)@.contains(x) || x == v,
{
    let ghost before = out@;
    let mut p: usize = 0;
    while p < out.len() && out[p] < v
        invariant
            p <= out.len(),
            out@ == before,
            strictly_ascending(before),
            forall|i: int| 0 <= i < p ==> (#[trigger] before[i]) < v,
        decreases out.len() - p,
    {
        p = p + 1;
    }
    if p < out.len() && out[p] == v {
        assert(before.contains(v));
        return ;
    }
    out.insert(p, v);
    proof {
        let after = before.insert(p as int, v);
        assert forall|i: int, j: int| 0 <= i < j < after.len() implies #[trigger] after[i]
            < #[trigger] after[j] by {
            if p < before.len() {
                assert(before[p as int] > v);
            }
        }
        assert forall|x: u32| #[trigger] after.contains(x) <==> before.contains(x) || x == v by {
            if after.contains(x) {
                let k = choose|k: int| 0 <= k < after.len() && after[k] == x;
                if k < p {
                    assert(before[k] == x);
                } else if k > p {
                    assert(before[k - 1] == x);
                }
            }
            if before.contains(x) {
                let k = choose|k: int| 0 <= k < before.len() && before[k] == x;
                if k < p {
                    assert(after[k] == x);
                } else {
                    assert(after[k + 1] == x);
                }
            }
            assert(after[p as int] == v);
        }
    }
}

/// The schema versions that a manifest names: those of the payloads and its
/// own, each once, ascending.
pub fn schema_versions(payload_schemas: &Vec<u32>, manifest_schema: u32) -> (r: Vec<u32>)
    ensures
        strictly_ascending(r@),
        forall|x: u32| #[trigger]
            r@.contains(x) <==> payload_schemas@.contains(x) || x == manifest_schema,
{
    let mut out: Vec<u32> = Vec::new();
    put_version(&mut out, manifest_schema);
    let mut i: usize = 0;
    assert(payload_schemas@.take(0) =~= Seq::empty());
    while i < payload_schemas.len()
        invariant
            i <= payload_schemas.len(),
            strictly_ascending(out@),
            forall|x: u32| #[trigger]
                out@.contains(x) <==> payload_schemas@.take(i as int).contains(x) || x
                    == manifest_schema,
        decreases payload_schemas.len() - i,
    {
        let ghost prior = payload_schemas@.take(i as int);
        let ghost grown = payload_schemas@.take(i + 1);
        let v: u32 = payload_schemas[i];
        put_version(&mut out, v);
        proof {
            assert(grown =~= prior.push(v));
            assert forall|x: u32| #[trigger] grown.contains(x) <==> prior.contains(x) || x == v by {
                if grown.contains(x) {
                    let k = choose|k: int| 0 <= k < grown.len() && grown[k] == x;
                    if k < prior.len() {
                        assert(prior[k] == x);
                    }
                }
                if prior.contains(x) {
                    let k = choose|k: int| 0 <= k < prior.len() && prior[k] == x;
                    assert(grown[k] == x);
                }
                assert(grown[prior.len() as int] == v);
            }
        }
        i = i + 1;
    }
    assert(payload_schemas@.take(i as int) =~= payload_schemas@);
    out
}

/// A module generation that a manifest pins.
#[derive(Debug, Clone, PartialEq, Eq)]
pub struct ModulePin {
    pub module_id: Id128,
    pub generation: u64,
    pub package: Digest,
    pub scope: String,
}

pub struct ModulePinView {
    pub module_id: Seq<char>,
    pub generation: u64,
    pub package: Seq<char>,
    pub scope: Seq<char>,
}

impl View for ModulePin {
    type V = ModulePinView;

    open spec fn view(&self) -> ModulePinView {
        ModulePinView {
            module_id: self.module_id@,
            generation: self.generation,
            package: self.package@,
            scope: self.scope@,
        }
    }
}

impl Value for ModulePin {
    fn copy(&self) -> (r: Self) {
        ModulePin {
            module_id: self.module_id.copy(),
            generation: self.generation,
            package: self.package.copy(),
            scope: self.scope.copy(),
        }
    }

    fn same(&self, other: &Self) -> (r: bool) {
        self.module_id.same(&other.module_id)
            && self.generation == other.generation
            && self.package.same(&other.package)
            && self.scope.same(&other.scope)
    }
}

/// The execution manifest of a state-changing commit: everything that what
/// follows runs under.
#[derive(Debug, Clone, PartialEq, Eq)]
pub struct ExecutionManifest {
    pub state_head: Option<Digest>,
    pub modules: Vec<ModulePin>,
    pub composition: Digest,
    pub engine_digest: Option<Digest>,
    pub memory_root: Option<Digest>,
    pub project_memory_root: Option<Digest>,
    pub tool_registry: Digest,
    pub provider_config: Option<Digest>,
    pub scheduler_policy: String,
    pub schema_versions: Vec<u32>,
}

/// A live module as it is pinned; modules are activated at the root scope.
pub open spec fn pin_of(m: LiveModuleView) -> ModulePinView {
    ModulePinView {
        module_id: m.module_id,
        generation: m.generation,
        package: m.package,
        scope: "/"@,
    }
}

pub open spec fn pins_of(live: Seq<LiveModuleView>) -> Seq<ModulePinView> {
    live.map_values(|m: LiveModuleView| pin_of(m))
}

fn module_pins(live: &Vec<LiveModule>) -> (r: Vec<ModulePin>)
    ensures
        value::views(r@) == pins_of(value::views(live@)),
{
    let ghost want = pins_of(value::views(live@));
    let mut out: Vec<ModulePin> = Vec::new();
    let mut i: usize = 0;
    assert(value::views(out@) =~= want.take(0));
    while i < live.len()
        invariant
            i <= live.len(),
            want == pins_of(value::views(live@)),
            value::views(out@) == want.take(i as int),
        decreases live.len() - i,
    {
        let p = ModulePin {
            module_id: live[i].module_id.copy(),
            generation: live[i].generation,
            package: live[i].package.copy(),
            scope: "/".to_owned(),
        };
        assert(p@ == want[i as int]);
        out.push(p);
        assert(want.take(i + 1) =~= want.take(i as int).push(want[i as int]));
        i = i + 1;
    }
    assert(want.take(i as int) =~= want);
    out
}

/// Builds the manifest that a commit pins. `live` is empty where modules are
/// disabled; the memory roots are the heads at commit time.
pub fn build_manifest(
    state_head: &Option<Digest>,
    live: &Vec<LiveModule>,
    composition: &Digest,
    engine: &Option<Digest>,
    memory_root: &Option<Digest>,
    project_memory_root: &Option<Digest>,
    tool_registry: &Digest,
    provider_config: &Option<Digest>,
    scheduler_policy: &str,
    payload_schemas: &Vec<u32>,
    manifest_schema: u32,
) -> (r: ExecutionManifest)
    ensures
        value::opt_view(r.state_head) == value::opt_view(*state_head),
        value::views(r.modules@) == pins_of(value::views(live@)),
        r.composition@ == composition@,
        value::opt_view(r.engine_digest) == value::opt_view(*engine),
        value::opt_view(r.memory_root) == value::opt_view(*memory_root),
        value::opt_view(r.project_memory_root) == value::opt_view(*project_memory_root),
        r.tool_registry@ == tool_registry@,
        value::opt_view(r.provider_config) == value::opt_view(*provider_config),
        r.scheduler_policy@ == scheduler_policy@,
        strictly_ascending(r.schema_versions@),
        forall|x: u32| #[trigger]
            r.schema_versions@.contains(x) <==> payload_schemas@.contains(x) || x
                == manifest_schema,
{
    ExecutionManifest {
        state_head: value::copy_opt(state_head),
        modules: module_pins(live),
        composition: composition.copy(),
        engine_digest: value::copy_opt(engine),
        memory_root: value::copy_opt(memory_root),
        project_memory_root: value::copy_opt(project_memory_root),
        tool_registry: tool_registry.copy(),
        provider_config: value::copy_opt(provider_config),
        scheduler_policy: scheduler_policy.to_owned(),
        schema_versions: schema_versions(payload_schemas, manifest_schema),
    }
}

// ---------- replay ----------

/// The records from a seq on.
pub open spec fn records_from(log: Seq<LogRecordView>, from: u64) -> Seq<LogRecordView>
    decreases log.len(),
{
    if log.len() == 0 {
        Seq::empty()
    } else if log.last().seq < from {
        records_from(log.drop_last(), from)
    } else {
        records_from(log.drop_last(), from).push(log.last())
    }
}

/// The records to replay from `from_seq` on, and the last seq among them.
pub fn replay_envelopes(log: &Vec<LogRecord>, from_seq: u64) -> (r: (Vec<LogRecord>, Option<u64>))
    ensures
        value::views(r.0@) == records_from(value::views(log@), from_seq),
        r.1 == (if r.0.len() == 0 {
            None
        } else {
            Some(r.0@.last().seq)
        }),
{
    let ghost all = value::views(log@);
    let mut out: Vec<LogRecord> = Vec::new();
    let mut last: Option<u64> = None;
    let mut i: usize = 0;
    assert(all.take(0) =~= Seq::empty());
    while i < log.len()
        invariant
            i <= log.len(),
            all == value::views(log@),
            value::views(out@) == records_from(all.take(i as int), from_seq),
            last == (if out.len() == 0 {
                None
            } else {
                Some(out@.last().seq)
            }),
        decreases log.len() - i,
    {
        proof {
            assert(all.take(i + 1).last() == log@[i as int]@);
            assert(all.take(i + 1).drop_last() =~= all.take(i as int));
        }
        if log[i].seq >= from_seq {
            let x = log[i].copy();
            assert(x@.seq == log@[i as int]@.seq);
            last = Some(x.seq);
            out.push(x);
        }
        i = i + 1;
    }
    assert(all.take(i as int) =~= all);
    (out, last)
}

// ---------- laws ----------

/// Once a committed compaction covers a fragment, no later batch that carries
/// it is let through, whatever was committed since.
pub proof fn law_compacted_fragments_are_refused(
    s: CommitStateView,
    since: Seq<EncodedEventView>,
    codec: CodecView,
    batch: Seq<EncodedEventView>,
    k: int,
    fragment: Seq<char>,
)
    requires
        covers(s.compacted, fragment),
        0 <= k < batch.len(),
        json::text_member(batch[k].payload, "fragment"@) == Some(fragment),
    ensures
        refusal(advanced(s, since, codec), batch) matches Some(e) && e is CompactionViolation,
{
    let t = advanced(s, since, codec);
    let i = choose|i: int|
        0 <= i < s.compacted.len() && (#[trigger] s.compacted[i]).covered_fragments.contains(
            fragment,
        );
    assert(t.compacted[i] == s.compacted[i]);
    assert(covers(t.compacted, fragment));
    lemma_stale_at(t.compacted, batch, k);
}

proof fn lemma_stale_at(compacted: Seq<CompactedRangeView>, events: Seq<EncodedEventView>, k: int)
    requires
        0 <= k < events.len(),
        stale_fragment(compacted, events[k]) is Some,
    ensures
        first_stale(compacted, events) is Some,
    decreases events.len(),
{
    if k < events.len() - 1 {
        assert(events.drop_last()[k] == events[k]);
        lemma_stale_at(compacted, events.drop_last(), k);
    }
}

/// The ring never outgrows its size, and its last entry is the last event.
pub proof fn law_ring_is_bounded(
    s: CommitStateView,
    events: Seq<EncodedEventView>,
    codec: CodecView,
)
    requires
        events.len() > 0,
        s.next_seq + events.len() <= u64::MAX,
    ensures
        advanced(s, events, codec).recent_events.len() <= RECENT_RING,
        advanced(s, events, codec).recent_events.last().seq + 1 == advanced(
            s,
            events,
            codec,
        ).next_seq,
{
}

/// What a session recovers from its log is what it had: replaying committed
/// batches gives the same compactions.
pub proof fn law_compactions_survive_recovery(
    log: Seq<LogRecordView>,
    r: LogRecordView,
    codec: CodecView,
)
    ensures
        compactions_in(log.push(r), codec) == compactions_in(log, codec) + selected_by(
            Seq::empty().push(EncodedEventView { kind: r.kind, payload: r.payload }),
            codec,
        ),
{
    let one = Seq::empty().push(EncodedEventView { kind: r.kind, payload: r.payload });
    assert(log.push(r).drop_last() =~= log);
    assert(one.drop_last() =~= Seq::empty());
    assert(selected_by(one.drop_last(), codec) =~= Seq::empty());
    match compaction_of(r.kind, r.payload, codec) {
        Some(c) => {
            assert(selected_by(one, codec) =~= Seq::empty().push(c));
            assert(compactions_in(log, codec) + Seq::empty().push(c) =~= compactions_in(
                log,
                codec,
            ).push(c));
        },
        None => {
            assert(compactions_in(log, codec) + Seq::empty() =~= compactions_in(log, codec));
        },
    }
}

/// A commit moves the current snapshot exactly when it changes the state, and
/// its receipt says so: the snapshot before it is the one that was current,
/// the one after it the one that is, and the seq goes on behind the last event.
pub proof fn law_snapshots_follow_state_heads(
    s: CommitStateView,
    events: Seq<EncodedEventView>,
    codec: CodecView,
    frame_len: u64,
    objects: Seq<Seq<char>>,
    state_head: Option<Seq<char>>,
    pinned: Option<Seq<char>>,
)
    requires
        refusal(s, events) is None,
        s.next_seq + events.len() <= u64::MAX,
        pinned is Some == state_head is Some,
    ensures
        ({
            let after = settled(advanced(s, events, codec), state_head, pinned);
            let r = CommitReceiptView {
                post_snapshot: pinned,
                ..written(s, events.len(), frame_len, objects)
            };
            &&& after.next_seq == r.last_seq + 1
            &&& r.first_seq == s.next_seq
            &&& r.pre_snapshot == s.snapshot
            &&& r.post_snapshot is Some == state_head is Some
            &&& after.snapshot == if r.post_snapshot is Some {
                r.post_snapshot
            } else {
                s.snapshot
            }
        }),
{
}

/// An event selects a compaction exactly if it is of that kind, has a range of two
/// ends and names a summary; it covers the fragments that its list names, in
/// their order.
pub proof fn law_compactions_say_what_they_cover(
    kind: Seq<char>,
    payload: JsonView,
    codec: CodecView,
    items: Seq<JsonView>,
    item: JsonView,
)
    ensures
        compaction_of(kind, payload, codec) is Some <==> {
            &&& kind == "compaction_selected"@
            &&& json::member(payload, "range"@) matches Some(JsonView::List(ends)) && ends.len()
                == 2 && ends[0] is Unsigned && ends[1] is Unsigned
            &&& event::digest_member(codec, payload, "summary_digest"@) is Some
        },
        compaction_of(kind, payload, codec) matches Some(c) ==> {
            &&& json::member(payload, "range"@) matches Some(JsonView::List(ends)) && ends[0]
                == JsonView::Unsigned(c.start) && ends[1] == JsonView::Unsigned(c.end)
            &&& event::digest_member(codec, payload, "summary_digest"@) == Some(c.summary_digest)
            &&& json::member(payload, "covered_fragments"@) matches Some(JsonView::List(l))
                ==> c.covered_fragments == texts_in(l)
        },
        texts_in(Seq::empty()).len() == 0,
        texts_in(items.push(item)) == match item {
            JsonView::Text(t) => texts_in(items).push(t),
            _ => texts_in(items),
        },
{
    assert(items.push(item).drop_last() =~= items);
}

/// A log recovers the compaction of each of its records, in its order.
pub proof fn law_every_compaction_is_recovered(
    log: Seq<LogRecordView>,
    r: LogRecordView,
    codec: CodecView,
)
    ensures
        compactions_in(Seq::empty(), codec).len() == 0,
        compactions_in(log.push(r), codec) == match compaction_of(r.kind, r.payload, codec) {
            Some(c) => compactions_in(log, codec).push(c),
            None => compactions_in(log, codec),
        },
{
    assert(log.push(r).drop_last() =~= log);
}

/// The event carries a fragment that a compaction covers.
pub open spec fn carries_covered(
    compacted: Seq<CompactedRangeView>,
    e: EncodedEventView,
) -> bool {
    json::text_member(e.payload, "fragment"@) matches Some(f) && exists|i: int|
        0 <= i < compacted.len() && (#[trigger] compacted[i]).covered_fragments.contains(f)
}

proof fn lemma_first_stale(compacted: Seq<CompactedRangeView>, events: Seq<EncodedEventView>)
    ensures
        first_stale(compacted, events) is Some <==> exists|k: int|
            0 <= k < events.len() && carries_covered(compacted, #[trigger] events[k]),
    decreases events.len(),
{
    if events.len() > 0 {
        let d = events.drop_last();
        lemma_first_stale(compacted, d);
        assert(events[events.len() - 1] == events.last());
        if exists|k: int| 0 <= k < d.len() && carries_covered(compacted, #[trigger] d[k]) {
            let k = choose|k: int|
                0 <= k < d.len() && carries_covered(compacted, #[trigger] d[k]);
            assert(events[k] == d[k]);
        }
        if exists|k: int|
            0 <= k < events.len() && carries_covered(compacted, #[trigger] events[k]) {
            let k = choose|k: int|
                0 <= k < events.len() && carries_covered(compacted, #[trigger] events[k]);
            if k < d.len() {
                assert(d[k] == events[k]);
            }
        }
    }
}

/// A batch is let through exactly if it holds events and none of them carries a
/// fragment that a compaction covers.
pub proof fn law_batches_are_let_through(s: CommitStateView, events: Seq<EncodedEventView>)
    ensures
        refusal(s, events) is None <==> events.len() > 0 && forall|k: int|
            0 <= k < events.len() ==> !carries_covered(s.compacted, #[trigger] events[k]),
        refusal(s, events) is Some && events.len() > 0 ==> refusal(
            s,
            events,
        )->0 is CompactionViolation,
{
    lemma_first_stale(s.compacted, events);
}

/// A committed batch takes the next seqs in its order, with its kinds and
/// payloads; the newest 64 events are remembered, what it selects is compacted,
/// and the snapshot stays until the commit is settled.
pub proof fn law_batches_take_the_next_seqs(
    s: CommitStateView,
    events: Seq<EncodedEventView>,
    codec: CodecView,
    i: int,
)
    requires
        0 <= i < events.len(),
        s.next_seq + events.len() <= u64::MAX,
    ensures
        advanced(s, events, codec).next_seq == s.next_seq + events.len(),
        advanced(s, events, codec).snapshot == s.snapshot,
        advanced(s, events, codec).compacted == s.compacted + selected_by(events, codec),
        numbered_from(events, s.next_seq).len() == events.len(),
        numbered_from(events, s.next_seq)[i].seq == s.next_seq + i,
        numbered_from(events, s.next_seq)[i].kind == events[i].kind,
        numbered_from(events, s.next_seq)[i].payload == events[i].payload,
        ({
            let ring = advanced(s, events, codec).recent_events;
            let all = s.recent_events + numbered_from(events, s.next_seq);
            &&& ring.len() == if all.len() < 64 {
                all.len()
            } else {
                64
            }
            &&& forall|k: int|
                0 <= k < ring.len() ==> #[trigger] ring[k] == all[all.len() - ring.len() + k]
        }),
{
}

/// The receipt of a commit says which seqs it took, how long its frame is, which
/// objects it brought and which snapshot it was committed against.
pub proof fn law_receipts_say_what_was_written(
    s: CommitStateView,
    count: nat,
    frame_len: u64,
    objects: Seq<Seq<char>>,
)
    requires
        0 < count,
        s.next_seq + count <= u64::MAX,
    ensures
        ({
            let r = written(s, count, frame_len, objects);
            &&& r.first_seq == s.next_seq
            &&& r.last_seq + 1 == s.next_seq + count
            &&& r.count == count
            &&& r.frame_len == frame_len
            &&& r.objects == objects
            &&& r.pre_snapshot == s.snapshot
            &&& r.post_snapshot is None
        }),
{
}

/// Every live module is pinned with its generation and its package, at the root
/// scope.
pub proof fn law_manifests_pin_every_module(live: Seq<LiveModuleView>, i: int)
    requires
        0 <= i < live.len(),
    ensures
        pins_of(live).len() == live.len(),
        pins_of(live)[i].module_id == live[i].module_id,
        pins_of(live)[i].generation == live[i].generation,
        pins_of(live)[i].package == live[i].package,
        pins_of(live)[i].scope == "/"@,
{
}

/// A replay from a seq gives the records that are no older, in the order of the
/// log.
pub proof fn law_replays_start_at_their_seq(
    log: Seq<LogRecordView>,
    r: LogRecordView,
    from: u64,
)
    ensures
        records_from(Seq::empty(), from).len() == 0,
        records_from(log.push(r), from) == if r.seq >= from {
            records_from(log, from).push(r)
        } else {
            records_from(log, from)
        },
{
    assert(log.push(r).drop_last() =~= log);
}

} // verus!
