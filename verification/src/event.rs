//! Events: what a session hands to its log, and what it reads back.
use vstd::prelude::*;
use vstd::string::*;
use crate::ids::{Digest, Id128};
use crate::json;
use crate::json::{Json, JsonView};
use crate::model::{ModelCall, ModelCallView, ModelOutcome, ModelOutcomeView};
use crate::tools::{ToolIntent, ToolIntentView, ToolOutcome, ToolOutcomeView};
use crate::text;
use crate::value;
use crate::value::Value;

verus! {

broadcast use value::group_views;

/// The content of an event: a plain document, or a record with an encoding of its
/// own.
#[derive(Debug, Clone, PartialEq, Eq)]
pub enum Payload {
    Document(Json),
    Call(ModelCall),
    Reply(ModelOutcome),
    Intent(ToolIntent),
    Outcome(ToolOutcome),
}

pub enum PayloadView {
    Document(JsonView),
    Call(ModelCallView),
    Reply(ModelOutcomeView),
    Intent(ToolIntentView),
    Outcome(ToolOutcomeView),
}

impl View for Payload {
    type V = PayloadView;

    open spec fn view(&self) -> PayloadView {
        match *self {
            Payload::Document(x) => PayloadView::Document(x@),
            Payload::Call(x) => PayloadView::Call(x@),
            Payload::Reply(x) => PayloadView::Reply(x@),
            Payload::Intent(x) => PayloadView::Intent(x@),
            Payload::Outcome(x) => PayloadView::Outcome(x@),
        }
    }
}

/// An event to commit.
#[derive(Debug, Clone, PartialEq, Eq)]
pub struct Event {
    pub kind: String,
    pub payload: Payload,
    /// The objects that the event refers to.
    pub refs: Vec<Digest>,
}

pub struct EventView {
    pub kind: Seq<char>,
    pub payload: PayloadView,
    pub refs: Seq<Seq<char>>,
}

impl View for Event {
    type V = EventView;

    open spec fn view(&self) -> EventView {
        EventView {
            kind: self.kind@,
            payload: self.payload@,
            refs: value::views(self.refs@),
        }
    }
}

/// An event without references.
pub open spec fn plain(kind: Seq<char>, payload: PayloadView) -> EventView {
    EventView { kind, payload, refs: Seq::empty() }
}

/// A document event.
pub open spec fn document(kind: Seq<char>, payload: JsonView) -> EventView {
    plain(kind, PayloadView::Document(payload))
}

/// The event, referring to objects.
pub open spec fn referring(e: EventView, refs: Seq<Seq<char>>) -> EventView {
    EventView { refs, ..e }
}

pub fn document_event(kind: &str, payload: Json) -> (r: Event)
    ensures
        r@ == document(kind@, payload@),
{
    plain_event(kind, Payload::Document(payload))
}

pub fn plain_event(kind: &str, payload: Payload) -> (r: Event)
    ensures
        r@ == plain(kind@, payload@),
{
    Event { kind: kind.to_owned(), payload, refs: Vec::new() }
}

/// A committed event as it is read back from the log.
#[derive(Debug, Clone, PartialEq, Eq)]
pub struct LogRecord {
    pub seq: u64,
    /// Which frame of the log holds it.
    pub frame: u64,
    /// The event's own identity.
    pub id: String,
    pub kind: String,
    /// The payload as it stands in the log.
    pub payload: Json,
    /// The payload with a promoted document read back from its object.
    pub resolved: Json,
    /// The snapshot that the event was committed against.
    pub snapshot: Option<Digest>,
}

pub struct LogRecordView {
    pub seq: u64,
    pub frame: u64,
    pub id: Seq<char>,
    pub kind: Seq<char>,
    pub payload: JsonView,
    pub resolved: JsonView,
    pub snapshot: Option<Seq<char>>,
}

impl View for LogRecord {
    type V = LogRecordView;

    open spec fn view(&self) -> LogRecordView {
        LogRecordView {
            seq: self.seq,
            frame: self.frame,
            id: self.id@,
            kind: self.kind@,
            payload: self.payload@,
            resolved: self.resolved@,
            snapshot: value::opt_view(self.snapshot),
        }
    }
}

impl Value for LogRecord {
    fn copy(&self) -> (r: Self) {
        LogRecord {
            seq: self.seq,
            frame: self.frame,
            id: self.id.copy(),
            kind: self.kind.copy(),
            payload: self.payload.copy(),
            resolved: self.resolved.copy(),
            snapshot: value::copy_opt(&self.snapshot),
        }
    }

    fn same(&self, other: &Self) -> (r: bool) {
        self.seq == other.seq
            && self.frame == other.frame
            && self.id.same(&other.id)
            && self.kind.same(&other.kind)
            && self.payload.same(&other.payload)
            && self.resolved.same(&other.resolved)
            && value::same_opt(&self.snapshot, &other.snapshot)
    }
}

/// A text with what it was read as.
#[derive(Debug, Clone, PartialEq, Eq)]
pub struct Reading {
    pub text: String,
    pub value: String,
}

pub struct ReadingView {
    pub text: Seq<char>,
    pub value: Seq<char>,
}

impl View for Reading {
    type V = ReadingView;

    open spec fn view(&self) -> ReadingView {
        ReadingView {
            text: self.text@,
            value: self.value@,
        }
    }
}

impl Value for Reading {
    fn copy(&self) -> (r: Self) {
        Reading {
            text: self.text.copy(),
            value: self.value.copy(),
        }
    }

    fn same(&self, other: &Self) -> (r: bool) {
        self.text.same(&other.text)
            && self.value.same(&other.value)
    }
}

/// The texts of a log that the host read as digests and as identities, with
/// the canonical text of what it read.
#[derive(Debug, Clone, PartialEq, Eq)]
pub struct Codec {
    pub digests: Vec<Reading>,
    pub ids: Vec<Reading>,
}

pub struct CodecView {
    pub digests: Seq<ReadingView>,
    pub ids: Seq<ReadingView>,
}

impl View for Codec {
    type V = CodecView;

    open spec fn view(&self) -> CodecView {
        CodecView { digests: value::views(self.digests@), ids: value::views(self.ids@) }
    }
}

/// What `t` is read as.
pub open spec fn reading_of(all: Seq<ReadingView>, t: Seq<char>) -> Option<Seq<char>>
    decreases all.len(),
{
    if all.len() == 0 {
        None
    } else if all[0].text == t {
        Some(all[0].value)
    } else {
        reading_of(all.drop_first(), t)
    }
}

/// The digest that `t` names.
pub open spec fn digest_named(codec: CodecView, t: Seq<char>) -> Option<Seq<char>> {
    reading_of(codec.digests, t)
}

/// The identity that `t` names.
pub open spec fn id_named(codec: CodecView, t: Seq<char>) -> Option<Seq<char>> {
    reading_of(codec.ids, t)
}

/// The digest that the member `name` of `v` names.
pub open spec fn digest_member(codec: CodecView, v: JsonView, name: Seq<char>) -> Option<Seq<char>> {
    match json::text_member(v, name) {
        Some(t) => digest_named(codec, t),
        None => None,
    }
}

/// The identity that the member `name` of `v` names.
pub open spec fn id_member(codec: CodecView, v: JsonView, name: Seq<char>) -> Option<Seq<char>> {
    match json::text_member(v, name) {
        Some(t) => id_named(codec, t),
        None => None,
    }
}

fn find_reading(all: &Vec<Reading>, t: &str) -> (r: Option<String>)
    ensures
        value::opt_view(r) == reading_of(value::views(all@), t@),
{
    let ghost views = value::views(all@);
    let mut i: usize = 0;
    assert(views.skip(0) =~= views);
    while i < all.len()
        invariant
            i <= all.len(),
            views == value::views(all@),
            reading_of(views, t@) == reading_of(views.skip(i as int), t@),
        decreases all.len() - i,
    {
        proof {
            assert(views.skip(i as int)[0] == all@[i as int]@);
            assert(views.skip(i as int).drop_first() =~= views.skip(i + 1));
        }
        if text::same_text(all[i].text.as_str(), t) {
            return Some(all[i].value.clone());
        }
        i = i + 1;
    }
    None
}

impl Codec {
    /// The digest that a text names.
    pub fn digest(&self, t: &str) -> (r: Option<Digest>)
        ensures
            value::opt_view(r) == digest_named(self@, t@),
    {
        match find_reading(&self.digests, t) {
            Some(text) => Some(Digest { text }),
            None => None,
        }
    }

    /// The identity that a text names.
    pub fn id(&self, t: &str) -> (r: Option<Id128>)
        ensures
            value::opt_view(r) == id_named(self@, t@),
    {
        match find_reading(&self.ids, t) {
            Some(text) => Some(Id128 { text }),
            None => None,
        }
    }

    /// The digest that a member names.
    pub fn digest_in(&self, v: &Json, name: &str) -> (r: Option<Digest>)
        ensures
            value::opt_view(r) == digest_member(self@, v@, name@),
    {
        match v.get_text(name) {
            Some(t) => self.digest(t.as_str()),
            None => None,
        }
    }

    /// The identity that a member names.
    pub fn id_in(&self, v: &Json, name: &str) -> (r: Option<Id128>)
        ensures
            value::opt_view(r) == id_member(self@, v@, name@),
    {
        match v.get_text(name) {
            Some(t) => self.id(t.as_str()),
            None => None,
        }
    }
}

// ---------- promoted payloads ----------

/// The object that a promoted payload names.
pub open spec fn promoted(payload: JsonView) -> Option<Seq<char>> {
    json::text_member(payload, "$object"@)
}

/// The object that stands in for a payload, if it was promoted.
pub fn promoted_object(payload: &Json) -> (r: Option<String>)
    ensures
        value::opt_view(r) == promoted(payload@),
{
    match payload.get_text("$object") {
        Some(t) => Some(t.clone()),
        None => None,
    }
}

/// The payload that a reader sees: the object's document when the payload was
/// promoted and the document could be read, else the payload as it stands.
pub open spec fn resolution(payload: JsonView, read: Option<JsonView>) -> JsonView {
    match (promoted(payload), read) {
        (Some(_), Some(v)) => v,
        _ => payload,
    }
}

/// Resolves a payload; `read` is the promoted document where it could be read.
pub fn resolve_payload(payload: &Json, read: Option<Json>) -> (r: Json)
    ensures
        r@ == resolution(payload@, value::opt_view(read)),
{
    match payload.get_text("$object") {
        Some(_) => match read {
            Some(v) => v,
            None => payload.copy(),
        },
        None => payload.copy(),
    }
}

/// A text is read as the first reading of it says, and as nothing where there
/// is none.
pub proof fn law_texts_are_read_by_their_reading(
    all: Seq<ReadingView>,
    r: ReadingView,
    t: Seq<char>,
)
    ensures
        reading_of(Seq::empty(), t) is None,
        r.text == t ==> reading_of(seq![r] + all, t) == Some(r.value),
        r.text != t ==> reading_of(seq![r] + all, t) == reading_of(all, t),
{
    assert((seq![r] + all).drop_first() =~= all);
}

/// Digests and identities are read each with their own readings, and a member
/// as the text it holds.
pub proof fn law_members_are_read_as_their_text(codec: CodecView, v: JsonView, name: Seq<char>)
    ensures
        json::member(v, name) matches Some(JsonView::Text(t)) ==> digest_member(codec, v, name)
            == reading_of(codec.digests, t) && id_member(codec, v, name) == reading_of(
            codec.ids,
            t,
        ),
        !(json::member(v, name) matches Some(JsonView::Text(_))) ==> digest_member(
            codec,
            v,
            name,
        ) is None && id_member(codec, v, name) is None,
{
}

/// A payload is replaced exactly where it names an object and the object could
/// be read.
pub proof fn law_promoted_payloads_are_resolved(payload: JsonView, read: Option<JsonView>)
    ensures
        json::member(payload, "$object"@) matches Some(JsonView::Text(t)) ==> (promoted(payload)
            == Some(t) && resolution(payload, read) == (match read {
            Some(v) => v,
            None => payload,
        })),
        !(json::member(payload, "$object"@) matches Some(JsonView::Text(_))) ==> promoted(
            payload,
        ) is None && resolution(payload, read) == payload,
{
}

/// Events hold the kind and the document they were made with, and refer to
/// exactly the given objects.
pub proof fn law_events_hold_what_they_were_made_with(
    kind: Seq<char>,
    payload: JsonView,
    refs: Seq<Seq<char>>,
)
    ensures
        document(kind, payload).kind == kind,
        document(kind, payload).payload == PayloadView::Document(payload),
        document(kind, payload).refs.len() == 0,
        referring(document(kind, payload), refs).kind == kind,
        referring(document(kind, payload), refs).payload == PayloadView::Document(payload),
        referring(document(kind, payload), refs).refs == refs,
{
}

} // verus!
