//! Intents in a log: which still await their outcome, which were classified,
//! and how a pending one is classified.
use vstd::prelude::*;
use vstd::string::*;
use crate::event;
use crate::event::{Event, EventView, LogRecord, LogRecordView};
use crate::ids::Digest;
use crate::json;
use crate::json::JsonView;
use crate::text;
use crate::value;
use crate::value::Value;

verus! {

broadcast use value::group_views;

/// A committed intent that has no outcome.
#[derive(Debug, Clone, PartialEq, Eq)]
pub struct PendingIntent {
    pub seq: u64,
    pub id: String,
    pub kind: String,
    /// Tool intents pair with their outcomes by it.
    pub call_id: Option<String>,
    pub tool: Option<String>,
    pub origin_snapshot: Option<Digest>,
}

pub struct PendingIntentView {
    pub seq: u64,
    pub id: Seq<char>,
    pub kind: Seq<char>,
    pub call_id: Option<Seq<char>>,
    pub tool: Option<Seq<char>>,
    pub origin_snapshot: Option<Seq<char>>,
}

impl View for PendingIntent {
    type V = PendingIntentView;

    open spec fn view(&self) -> PendingIntentView {
        PendingIntentView {
            seq: self.seq,
            id: self.id@,
            kind: self.kind@,
            call_id: value::opt_view(self.call_id),
            tool: value::opt_view(self.tool),
            origin_snapshot: value::opt_view(self.origin_snapshot),
        }
    }
}

impl Value for PendingIntent {
    fn copy(&self) -> (r: Self) {
        PendingIntent {
            seq: self.seq,
            id: self.id.copy(),
            kind: self.kind.copy(),
            call_id: value::copy_opt(&self.call_id),
            tool: value::copy_opt(&self.tool),
            origin_snapshot: value::copy_opt(&self.origin_snapshot),
        }
    }

    fn same(&self, other: &Self) -> (r: bool) {
        self.seq == other.seq
            && self.id.same(&other.id)
            && self.kind.same(&other.kind)
            && value::same_opt(&self.call_id, &other.call_id)
            && value::same_opt(&self.tool, &other.tool)
            && value::same_opt(&self.origin_snapshot, &other.origin_snapshot)
    }
}

/// An intent that a branch transition left behind.
#[derive(Debug, Clone, PartialEq, Eq)]
pub struct QuiescedIntent {
    pub seq: u64,
    pub kind: String,
    pub id: String,
}

pub struct QuiescedIntentView {
    pub seq: u64,
    pub kind: Seq<char>,
    pub id: Seq<char>,
}

impl View for QuiescedIntent {
    type V = QuiescedIntentView;

    open spec fn view(&self) -> QuiescedIntentView {
        QuiescedIntentView {
            seq: self.seq,
            kind: self.kind@,
            id: self.id@,
        }
    }
}

impl Value for QuiescedIntent {
    fn copy(&self) -> (r: Self) {
        QuiescedIntent {
            seq: self.seq,
            kind: self.kind.copy(),
            id: self.id.copy(),
        }
    }

    fn same(&self, other: &Self) -> (r: bool) {
        self.seq == other.seq
            && self.kind.same(&other.kind)
            && self.id.same(&other.id)
    }
}

/// The intent that a record commits. A tool intent names its call and its
/// tool.
pub open spec fn intent_of(r: LogRecordView) -> Option<PendingIntentView> {
    if r.kind == "tool_intent"@ {
        match (json::text_member(r.resolved, "call_id"@), json::text_member(r.resolved, "tool"@)) {
            (Some(call), Some(tool)) => Some(
                PendingIntentView {
                    seq: r.seq,
                    id: r.id,
                    kind: r.kind,
                    call_id: Some(call),
                    tool: Some(tool),
                    origin_snapshot: r.snapshot,
                },
            ),
            _ => None,
        }
    } else if r.kind == "model_call"@ || r.kind == "memory_proposal"@ {
        Some(
            PendingIntentView {
                seq: r.seq,
                id: r.id,
                kind: r.kind,
                call_id: None,
                tool: None,
                origin_snapshot: r.snapshot,
            },
        )
    } else {
        None
    }
}

/// The record settles the call: an outcome, or a classification.
pub open spec fn settles(r: LogRecordView, call: Seq<char>) -> bool {
    (r.kind == "tool_outcome"@ || r.kind == "intent_classified"@) && json::text_member(
        r.resolved,
        "call_id"@,
    ) == Some(call)
}

/// Some record settles the call.
pub open spec fn is_settled(log: Seq<LogRecordView>, call: Seq<char>) -> bool {
    exists|i: int| 0 <= i < log.len() && settles(#[trigger] log[i], call)
}

/// The kind of event that answers an intent of this kind.
pub open spec fn outcome_kind(kind: Seq<char>) -> Seq<char> {
    if kind == "model_call"@ {
        "model_outcome"@
    } else {
        "memory_root_approved"@
    }
}

/// The seq of the last record of a kind.
pub open spec fn last_seq(log: Seq<LogRecordView>, kind: Seq<char>) -> Option<u64>
    decreases log.len(),
{
    if log.len() == 0 {
        None
    } else if log.last().kind == kind {
        Some(log.last().seq)
    } else {
        last_seq(log.drop_last(), kind)
    }
}

/// An intent is pending while nothing answers it: a tool intent by its call,
/// any other by a later event of its outcome's kind.
pub open spec fn is_pending(log: Seq<LogRecordView>, intent: PendingIntentView) -> bool {
    match intent.call_id {
        Some(call) => !is_settled(log, call),
        None => match last_seq(log, outcome_kind(intent.kind)) {
            Some(seq) => seq < intent.seq,
            None => true,
        },
    }
}

/// The intents among the first records that are pending in the whole log.
pub open spec fn pending_among(records: Seq<LogRecordView>, log: Seq<LogRecordView>) -> Seq<
    PendingIntentView,
>
    decreases records.len(),
{
    if records.len() == 0 {
        Seq::empty()
    } else {
        let rest = pending_among(records.drop_last(), log);
        match intent_of(records.last()) {
            Some(intent) => if is_pending(log, intent) {
                rest.push(intent)
            } else {
                rest
            },
            None => rest,
        }
    }
}

/// The pending intents of a log, in its order.
pub open spec fn pending(log: Seq<LogRecordView>) -> Seq<PendingIntentView> {
    pending_among(log, log)
}

fn read_intent(r: &LogRecord) -> (i: Option<PendingIntent>)
    ensures
        value::opt_view(i) == intent_of(r@),
{
    if text::same_text(r.kind.as_str(), "tool_intent") {
        match (r.resolved.get_text("call_id"), r.resolved.get_text("tool")) {
            (Some(call), Some(tool)) => Some(
                PendingIntent {
                    seq: r.seq,
                    id: r.id.clone(),
                    kind: r.kind.clone(),
                    call_id: Some(call.clone()),
                    tool: Some(tool.clone()),
                    origin_snapshot: value::copy_opt(&r.snapshot),
                },
            ),
            _ => None,
        }
    } else if text::same_text(r.kind.as_str(), "model_call") || text::same_text(
        r.kind.as_str(),
        "memory_proposal",
    ) {
        Some(
            PendingIntent {
                seq: r.seq,
                id: r.id.clone(),
                kind: r.kind.clone(),
                call_id: None,
                tool: None,
                origin_snapshot: value::copy_opt(&r.snapshot),
            },
        )
    } else {
        None
    }
}

fn call_settled(log: &Vec<LogRecord>, call: &String) -> (r: bool)
    ensures
        r == is_settled(value::views(log@), call@),
{
    let ghost all = value::views(log@);
    let mut i: usize = 0;
    while i < log.len()
        invariant
            i <= log.len(),
            all == value::views(log@),
            forall|j: int| 0 <= j < i ==> !settles(#[trigger] all[j], call@),
        decreases log.len() - i,
    {
        let x = &log[i];
        assert(all[i as int] == x@);
        if text::same_text(x.kind.as_str(), "tool_outcome") || text::same_text(
            x.kind.as_str(),
            "intent_classified",
        ) {
            if let Some(c) = x.resolved.get_text("call_id") {
                if c.same(call) {
                    return true;
                }
            }
        }
        i = i + 1;
    }
    false
}

fn find_last_seq(log: &Vec<LogRecord>, kind: &str) -> (r: Option<u64>)
    ensures
        r == last_seq(value::views(log@), kind@),
{
    let ghost all = value::views(log@);
    let mut i: usize = log.len();
    assert(all.take(i as int) =~= all);
    while i > 0
        invariant
            i <= log.len(),
            all == value::views(log@),
            last_seq(all, kind@) == last_seq(all.take(i as int), kind@),
        decreases i,
    {
        i = i - 1;
        proof {
            assert(all.take(i + 1).last() == log@[i as int]@);
            assert(all.take(i + 1).drop_last() =~= all.take(i as int));
        }
        if text::same_text(log[i].kind.as_str(), kind) {
            return Some(log[i].seq);
        }
    }
    None
}

fn intent_pending(log: &Vec<LogRecord>, intent: &PendingIntent) -> (r: bool)
    ensures
        r == is_pending(value::views(log@), intent@),
{
    match &intent.call_id {
        Some(call) => !call_settled(log, call),
        None => {
            let answer = if text::same_text(intent.kind.as_str(), "model_call") {
                "model_outcome"
            } else {
                "memory_root_approved"
            };
            match find_last_seq(log, answer) {
                Some(seq) => seq < intent.seq,
                None => true,
            }
        },
    }
}

/// Scans a log for intents without an outcome.
pub fn scan_pending_intents(log: &Vec<LogRecord>) -> (r: Vec<PendingIntent>)
    ensures
        value::views(r@) == pending(value::views(log@)),
{
    let ghost all = value::views(log@);
    let mut out: Vec<PendingIntent> = Vec::new();
    let mut i: usize = 0;
    assert(all.take(0) =~= Seq::empty());
    while i < log.len()
        invariant
            i <= log.len(),
            all == value::views(log@),
            value::views(out@) == pending_among(all.take(i as int), all),
        decreases log.len() - i,
    {
        proof {
            assert(all.take(i + 1).last() == log@[i as int]@);
            assert(all.take(i + 1).drop_last() =~= all.take(i as int));
        }
        if let Some(intent) = read_intent(&log[i]) {
            if intent_pending(log, &intent) {
                out.push(intent);
            }
        }
        i = i + 1;
    }
    assert(all.take(i as int) =~= all);
    out
}

// ---------- classification ----------

/// The record that classifies an intent without an outcome: ambiguous when it
/// was committed against a known world, else interrupted.
pub open spec fn classification(intent: PendingIntentView) -> EventView {
    event::document(
        "intent_classified"@,
        JsonView::Object(json::fields5(json::fv("call_id"@, json::text_or_null(intent.call_id)), json::fv("tool"@, JsonView::Text(match intent.tool {Some(t) => t, None => ""@})), json::fv("classification"@, JsonView::Text(if intent.origin_snapshot is Some {"ambiguous"@} else {"interrupted"@})), json::fv("reason"@, JsonView::Text("committed intent without outcome (B-05)"@)), json::fv("origin_snapshot"@, json::text_or_null(intent.origin_snapshot)))),
    )
}

/// The classifications that a log calls for: one for each pending tool intent.
pub open spec fn classifications(intents: Seq<PendingIntentView>) -> Seq<EventView>
    decreases intents.len(),
{
    if intents.len() == 0 {
        Seq::empty()
    } else {
        let rest = classifications(intents.drop_last());
        if intents.last().kind == "tool_intent"@ && intents.last().call_id is Some {
            rest.push(classification(intents.last()))
        } else {
            rest
        }
    }
}

fn classification_event(intent: &PendingIntent) -> (r: Event)
    ensures
        r@ == classification(intent@),
{
    let tool = match &intent.tool {
        Some(t) => t.clone(),
        None => "".to_owned(),
    };
    let class = match &intent.origin_snapshot {
        Some(_) => "ambiguous",
        None => "interrupted",
    };
    let f = json::field(json::no_fields(), "call_id", json::string_or_null(&intent.call_id));
    let f = json::field(f, "tool", json::text_json(tool.as_str()));
    let f = json::field(f, "classification", json::text_json(class));
    let f = json::field(f, "reason", json::text_json("committed intent without outcome (B-05)"));
    let f = json::field(f, "origin_snapshot", json::digest_or_null(&intent.origin_snapshot));
    event::document_event("intent_classified", json::record(f))
}

/// The events that classify the pending tool intents of a log. Each is
/// committed before the session takes up new work.
pub fn classify_pending_intents(log: &Vec<LogRecord>) -> (r: Vec<Event>)
    ensures
        value::views(r@) == classifications(pending(value::views(log@))),
{
    let intents = scan_pending_intents(log);
    let ghost all = value::views(intents@);
    let mut out: Vec<Event> = Vec::new();
    let mut i: usize = 0;
    assert(all.take(0) =~= Seq::empty());
    while i < intents.len()
        invariant
            i <= intents.len(),
            all == value::views(intents@),
            value::views(out@) == classifications(all.take(i as int)),
        decreases intents.len() - i,
    {
        let x = &intents[i];
        proof {
            assert(all.take(i + 1).last() == x@);
            assert(all.take(i + 1).drop_last() =~= all.take(i as int));
        }
        if text::same_text(x.kind.as_str(), "tool_intent") && x.call_id.is_some() {
            out.push(classification_event(x));
        }
        i = i + 1;
    }
    assert(all.take(i as int) =~= all);
    out
}

/// A tool intent by its call, with its last classification.
#[derive(Debug, Clone, PartialEq, Eq)]
pub struct ClassifiedIntent {
    pub call_id: String,
    pub intent: QuiescedIntent,
    pub class: Option<String>,
}

pub struct ClassifiedIntentView {
    pub call_id: Seq<char>,
    pub intent: QuiescedIntentView,
    pub class: Option<Seq<char>>,
}

impl View for ClassifiedIntent {
    type V = ClassifiedIntentView;

    open spec fn view(&self) -> ClassifiedIntentView {
        ClassifiedIntentView {
            call_id: self.call_id@,
            intent: self.intent@,
            class: value::opt_view(self.class),
        }
    }
}

impl Value for ClassifiedIntent {
    fn copy(&self) -> (r: Self) {
        ClassifiedIntent {
            call_id: self.call_id.copy(),
            intent: self.intent.copy(),
            class: value::copy_opt(&self.class),
        }
    }

    fn same(&self, other: &Self) -> (r: bool) {
        self.call_id.same(&other.call_id)
            && self.intent.same(&other.intent)
            && value::same_opt(&self.class, &other.class)
    }
}

/// Where a call is listed; the length if it is not.
pub open spec fn call_place(s: Seq<ClassifiedIntentView>, call: Seq<char>) -> int
    decreases s.len(),
{
    if s.len() == 0 || s[0].call_id == call {
        0
    } else {
        1 + call_place(s.drop_first(), call)
    }
}

proof fn lemma_call_place(s: Seq<ClassifiedIntentView>, call: Seq<char>, p: int)
    requires
        0 <= p <= s.len(),
        p < s.len() ==> s[p].call_id == call,
        forall|i: int| 0 <= i < p ==> (#[trigger] s[i]).call_id != call,
    ensures
        call_place(s, call) == p,
    decreases s.len(),
{
    if s.len() > 0 && p > 0 {
        assert(s[0].call_id != call);
        let t = s.drop_first();
        assert forall|i: int| 0 <= i < p - 1 implies (#[trigger] t[i]).call_id != call by {
            assert(t[i] == s[i + 1]);
        }
        lemma_call_place(t, call, p - 1);
    }
}

/// The list after one more record: the first intent of a call enters it, and
/// a classification of a listed call counts.
pub open spec fn classified_step(s: Seq<ClassifiedIntentView>, r: LogRecordView) -> Seq<
    ClassifiedIntentView,
> {
    match json::text_member(r.resolved, "call_id"@) {
        None => s,
        Some(call) => {
            let p = call_place(s, call);
            if r.kind == "tool_intent"@ {
                if p < s.len() {
                    s
                } else {
                    s.push(
                        ClassifiedIntentView {
                            call_id: call,
                            intent: QuiescedIntentView {
                                seq: r.seq,
                                kind: "tool_intent"@,
                                id: r.id,
                            },
                            class: None,
                        },
                    )
                }
            } else if r.kind == "intent_classified"@ {
                match json::text_member(r.payload, "classification"@) {
                    Some(class) => if p < s.len() {
                        s.update(p, ClassifiedIntentView { class: Some(class), ..s[p] })
                    } else {
                        s
                    },
                    None => s,
                }
            } else {
                s
            }
        },
    }
}

pub open spec fn classified_list(log: Seq<LogRecordView>) -> Seq<ClassifiedIntentView>
    decreases log.len(),
{
    if log.len() == 0 {
        Seq::empty()
    } else {
        classified_step(classified_list(log.drop_last()), log.last())
    }
}

/// Whether a classification leaves the intent open.
pub open spec fn left_open(class: Option<Seq<char>>) -> bool {
    class == Some("interrupted"@) || class == Some("ambiguous"@)
}

pub open spec fn open_ones(s: Seq<ClassifiedIntentView>) -> Seq<QuiescedIntentView>
    decreases s.len(),
{
    if s.len() == 0 {
        Seq::empty()
    } else if left_open(s.last().class) {
        open_ones(s.drop_last()).push(s.last().intent)
    } else {
        open_ones(s.drop_last())
    }
}

/// The tool intents that are classified interrupted or ambiguous, in the
/// order of the log.
pub open spec fn classified(log: Seq<LogRecordView>) -> Seq<QuiescedIntentView> {
    open_ones(classified_list(log))
}

fn find_call(s: &Vec<ClassifiedIntent>, call: &String) -> (r: usize)
    ensures
        r == call_place(value::views(s@), call@),
        r <= s.len(),
{
    let ghost all = value::views(s@);
    let mut i: usize = 0;
    while i < s.len()
        invariant
            i <= s.len(),
            all == value::views(s@),
            forall|j: int| 0 <= j < i ==> (#[trigger] all[j]).call_id != call@,
        decreases s.len() - i,
    {
        assert(all[i as int] == s@[i as int]@);
        if s[i].call_id.same(call) {
            proof {
                lemma_call_place(all, call@, i as int);
            }
            return i;
        }
        i = i + 1;
    }
    proof {
        lemma_call_place(all, call@, i as int);
    }
    i
}

fn take_record(s: &mut Vec<ClassifiedIntent>, r: &LogRecord)
    ensures
        value::views(final(s)@) == classified_step(value::views(old(s)@), r@),
{
    if let Some(call) = r.resolved.get_text("call_id") {
        let p: usize = find_call(s, call);
        if text::same_text(r.kind.as_str(), "tool_intent") {
            if p == s.len() {
                s.push(
                    ClassifiedIntent {
                        call_id: call.clone(),
                        intent: QuiescedIntent {
                            seq: r.seq,
                            kind: "tool_intent".to_owned(),
                            id: r.id.clone(),
                        },
                        class: None,
                    },
                );
            }
        } else if text::same_text(r.kind.as_str(), "intent_classified") {
            if let Some(class) = r.payload.get_text("classification") {
                if p < s.len() {
                    let mut x = s[p].copy();
                    x.class = Some(class.clone());
                    s.set(p, x);
                }
            }
        }
    }
}

/// Scans a log for tool intents that were classified interrupted or
/// ambiguous.
pub fn scan_classified_intents(log: &Vec<LogRecord>) -> (r: Vec<QuiescedIntent>)
    ensures
        value::views(r@) == classified(value::views(log@)),
{
    let ghost all = value::views(log@);
    let mut list: Vec<ClassifiedIntent> = Vec::new();
    let mut i: usize = 0;
    assert(all.take(0) =~= Seq::empty());
    while i < log.len()
        invariant
            i <= log.len(),
            all == value::views(log@),
            value::views(list@) == classified_list(all.take(i as int)),
        decreases log.len() - i,
    {
        proof {
            assert(all.take(i + 1).last() == log@[i as int]@);
            assert(all.take(i + 1).drop_last() =~= all.take(i as int));
        }
        take_record(&mut list, &log[i]);
        i = i + 1;
    }
    assert(all.take(i as int) =~= all);
    let ghost listed = value::views(list@);
    let mut out: Vec<QuiescedIntent> = Vec::new();
    let mut k: usize = 0;
    assert(listed.take(0) =~= Seq::empty());
    while k < list.len()
        invariant
            k <= list.len(),
            listed == value::views(list@),
            value::views(out@) == open_ones(listed.take(k as int)),
        decreases list.len() - k,
    {
        proof {
            assert(listed.take(k + 1).last() == list@[k as int]@);
            assert(listed.take(k + 1).drop_last() =~= listed.take(k as int));
        }
        if let Some(class) = &list[k].class {
            if text::same_text(class.as_str(), "interrupted") || text::same_text(
                class.as_str(),
                "ambiguous",
            ) {
                out.push(list[k].intent.copy());
            }
        }
        k = k + 1;
    }
    assert(listed.take(k as int) =~= listed);
    out
}

// ---------- laws ----------

proof fn lemma_pending_among(
    records: Seq<LogRecordView>,
    log: Seq<LogRecordView>,
    intent: PendingIntentView,
)
    ensures
        pending_among(records, log).contains(intent) <==> is_pending(log, intent) && exists|i: int|
            0 <= i < records.len() && intent_of(#[trigger] records[i]) == Some(intent),
    decreases records.len(),
{
    let found = |s: Seq<LogRecordView>|
        exists|i: int| 0 <= i < s.len() && intent_of(#[trigger] s[i]) == Some(intent);
    let all = pending_among(records, log);
    if records.len() > 0 {
        let r = records.drop_last();
        let rest = pending_among(r, log);
        lemma_pending_among(r, log, intent);
        if all.contains(intent) {
            let k = choose|k: int| 0 <= k < all.len() && all[k] == intent;
            if k < rest.len() {
                assert(rest[k] == intent);
                assert(rest.contains(intent));
                let i = choose|i: int|
                    0 <= i < r.len() && intent_of(#[trigger] r[i]) == Some(intent);
                assert(records[i] == r[i]);
            } else {
                assert(intent_of(records[records.len() - 1]) == Some(intent));
            }
        }
        if is_pending(log, intent) && found(records) {
            let i = choose|i: int|
                0 <= i < records.len() && intent_of(#[trigger] records[i]) == Some(intent);
            if i < r.len() {
                assert(r[i] == records[i]);
                assert(rest.contains(intent));
                let k = choose|k: int| 0 <= k < rest.len() && rest[k] == intent;
                assert(all[k] == intent);
            } else {
                assert(all[all.len() - 1] == intent);
            }
        }
    }
}

/// The scan is exact: an intent is listed if and only if the log commits it
/// and nothing answers it.
pub proof fn law_pending_is_exact(log: Seq<LogRecordView>, intent: PendingIntentView)
    ensures
        pending(log).contains(intent) <==> is_pending(log, intent) && exists|i: int|
            0 <= i < log.len() && intent_of(#[trigger] log[i]) == Some(intent),
{
    lemma_pending_among(log, log, intent);
}

/// Classifying settles: once its classification is in the log, a tool intent
/// is pending no more.
pub proof fn law_classified_intents_are_settled(
    log: Seq<LogRecordView>,
    call: Seq<char>,
    r: LogRecordView,
    intent: PendingIntentView,
)
    requires
        r.kind == "intent_classified"@,
        json::text_member(r.resolved, "call_id"@) == Some(call),
        intent.call_id == Some(call),
    ensures
        !pending(log.push(r)).contains(intent),
{
    let more = log.push(r);
    law_pending_is_exact(more, intent);
    assert(settles(more[log.len() as int], call));
}

/// A record commits an intent if it is a tool intent that names its call and its
/// tool, a model call or a proposal to memory; the intent has the record's seq,
/// identity, kind and snapshot.
pub proof fn law_records_commit_intents(r: LogRecordView)
    ensures
        intent_of(r) is Some <==> (r.kind == "tool_intent"@ && json::text_member(
            r.resolved,
            "call_id"@,
        ) is Some && json::text_member(r.resolved, "tool"@) is Some) || r.kind == "model_call"@
            || r.kind == "memory_proposal"@,
        intent_of(r) matches Some(x) ==> {
            &&& x.seq == r.seq
            &&& x.id == r.id
            &&& x.kind == r.kind
            &&& x.origin_snapshot == r.snapshot
            &&& r.kind == "tool_intent"@ ==> x.call_id == json::text_member(
                r.resolved,
                "call_id"@,
            ) && x.tool == json::text_member(r.resolved, "tool"@)
            &&& r.kind != "tool_intent"@ ==> x.call_id is None && x.tool is None
        },
{
    reveal_strlit("tool_intent");
    reveal_strlit("model_call");
    reveal_strlit("memory_proposal");
    assert("tool_intent"@.len() == 11 && "model_call"@.len() == 10);
    assert("memory_proposal"@.len() == 15);
}

/// A tool intent is answered by an outcome or a classification of its call, and by
/// nothing else. Any other intent is answered by the last outcome of its kind that
/// is no older: a model call by its outcome, a proposal by the approval of a root.
pub proof fn law_intents_are_answered(
    log: Seq<LogRecordView>,
    r: LogRecordView,
    intent: PendingIntentView,
    kind: Seq<char>,
)
    ensures
        intent.call_id matches Some(call) ==> (is_pending(log, intent) <==> forall|i: int|
            0 <= i < log.len() ==> !(((#[trigger] log[i]).kind == "tool_outcome"@ || log[i].kind
                == "intent_classified"@) && json::text_member(log[i].resolved, "call_id"@) == Some(
                call,
            ))),
        intent.call_id is None && intent.kind == "model_call"@ ==> (is_pending(log, intent)
            <==> !(last_seq(log, "model_outcome"@) matches Some(seq) && seq >= intent.seq)),
        intent.call_id is None && intent.kind == "memory_proposal"@ ==> (is_pending(log, intent)
            <==> !(last_seq(log, "memory_root_approved"@) matches Some(seq) && seq >= intent.seq)),
        last_seq(Seq::empty(), kind) is None,
        last_seq(log.push(r), kind) == if r.kind == kind {
            Some(r.seq)
        } else {
            last_seq(log, kind)
        },
{
    assert(log.push(r).drop_last() =~= log);
    reveal_strlit("model_call");
    reveal_strlit("memory_proposal");
    assert("model_call"@.len() == 10 && "memory_proposal"@.len() == 15);
    if let Some(call) = intent.call_id {
        if is_pending(log, intent) {
            assert forall|i: int| 0 <= i < log.len() implies !(((#[trigger] log[i]).kind
                == "tool_outcome"@ || log[i].kind == "intent_classified"@) && json::text_member(
                log[i].resolved,
                "call_id"@,
            ) == Some(call)) by {
                assert(!settles(log[i], call));
            }
        } else {
            let i = choose|i: int| 0 <= i < log.len() && settles(#[trigger] log[i], call);
            assert(settles(log[i], call));
        }
    }
}

/// Every pending tool intent is classified, in their order, and no other intent.
pub proof fn law_pending_tools_are_classified(
    intents: Seq<PendingIntentView>,
    intent: PendingIntentView,
)
    ensures
        classifications(Seq::empty()).len() == 0,
        classifications(intents.push(intent)) == if intent.kind == "tool_intent"@
            && intent.call_id is Some {
            classifications(intents).push(classification(intent))
        } else {
            classifications(intents)
        },
{
    assert(intents.push(intent).drop_last() =~= intents);
}

/// The first intent of a call enters the list, its last classification counts, and
/// other records change nothing. What is listed in the end are the intents whose
/// classification leaves them open.
pub proof fn law_classifications_are_scanned(
    log: Seq<LogRecordView>,
    r: LogRecordView,
    s: Seq<ClassifiedIntentView>,
    c: ClassifiedIntentView,
)
    ensures
        classified_list(Seq::empty()).len() == 0,
        ({
            let before = classified_list(log);
            let after = classified_list(log.push(r));
            let call = json::text_member(r.resolved, "call_id"@);
            &&& r.kind != "tool_intent"@ && r.kind != "intent_classified"@ ==> after == before
            &&& call is None ==> after == before
            &&& call is Some && r.kind == "tool_intent"@ && call_place(before, call->0)
                < before.len() ==> after == before
            &&& call is Some && r.kind == "tool_intent"@ && call_place(before, call->0)
                >= before.len() ==> {
                &&& after.len() == before.len() + 1
                &&& after.drop_last() == before
                &&& after.last().call_id == call->0
                &&& after.last().class is None
                &&& after.last().intent.seq == r.seq
                &&& after.last().intent.id == r.id
                &&& after.last().intent.kind == "tool_intent"@
            }
            &&& call is Some && r.kind == "intent_classified"@ && json::text_member(
                r.payload,
                "classification"@,
            ) is Some && 0 <= call_place(before, call->0) < before.len() ==> {
                let p = call_place(before, call->0);
                &&& after.len() == before.len()
                &&& after[p].class == json::text_member(r.payload, "classification"@)
                &&& after[p].intent == before[p].intent
                &&& after[p].call_id == before[p].call_id
                &&& forall|i: int|
                    0 <= i < before.len() && i != p ==> #[trigger] after[i] == before[i]
            }
        }),
        open_ones(Seq::empty()).len() == 0,
        open_ones(s.push(c)) == if c.class == Some("interrupted"@) || c.class == Some(
            "ambiguous"@,
        ) {
            open_ones(s).push(c.intent)
        } else {
            open_ones(s)
        },
{
    assert(log.push(r).drop_last() =~= log);
    assert(s.push(c).drop_last() =~= s);
    reveal_strlit("tool_intent");
    reveal_strlit("intent_classified");
    assert("tool_intent"@.len() == 11 && "intent_classified"@.len() == 17);
    let before = classified_list(log);
    let after = classified_list(log.push(r));
    let call = json::text_member(r.resolved, "call_id"@);
    if call is Some && r.kind == "tool_intent"@ && call_place(before, call->0) >= before.len() {
        assert(after.drop_last() =~= before);
    }
}

} // verus!
