//! Telemetry: the spans and gauges that a session emits, all taken from its
//! canonical records and from what its files show.
use vstd::prelude::*;
use vstd::string::*;
use crate::commit::{CommitReceipt, CommitReceiptView};
use crate::ids::{Digest, Id128};
use crate::runs;
use crate::runs::{TerminalOutcome, TerminalOutcomeView};
use crate::value;
use crate::value::Value;

verus! {

broadcast use value::group_views;

/// The value of an attribute.
#[derive(Debug, Clone, PartialEq, Eq)]
pub enum AttrValue {
    Str(String),
    Int(i64),
}

pub enum AttrValueView {
    Str(Seq<char>),
    Int(i64),
}

impl View for AttrValue {
    type V = AttrValueView;

    open spec fn view(&self) -> AttrValueView {
        match *self {
            AttrValue::Str(x) => AttrValueView::Str(x@),
            AttrValue::Int(x) => AttrValueView::Int(x),
        }
    }
}

impl Value for AttrValue {
    fn copy(&self) -> (r: Self) {
        match self {
            AttrValue::Str(x) => AttrValue::Str(x.copy()),
            AttrValue::Int(x) => AttrValue::Int(*x),
        }
    }

    fn same(&self, other: &Self) -> (r: bool) {
        match (self, other) {
            (AttrValue::Str(x), AttrValue::Str(y)) => x.same(y),
            (AttrValue::Int(x), AttrValue::Int(y)) => *x == *y,
            _ => false,
        }
    }
}

/// An attribute of a span or of a gauge.
#[derive(Debug, Clone, PartialEq, Eq)]
pub struct Attribute {
    pub name: String,
    pub value: AttrValue,
}

pub struct AttributeView {
    pub name: Seq<char>,
    pub value: AttrValueView,
}

impl View for Attribute {
    type V = AttributeView;

    open spec fn view(&self) -> AttributeView {
        AttributeView {
            name: self.name@,
            value: self.value@,
        }
    }
}

impl Value for Attribute {
    fn copy(&self) -> (r: Self) {
        Attribute {
            name: self.name.copy(),
            value: self.value.copy(),
        }
    }

    fn same(&self, other: &Self) -> (r: bool) {
        self.name.same(&other.name)
            && self.value.same(&other.value)
    }
}

/// What a span stands for.
#[derive(Debug, Clone, Copy, PartialEq, Eq, Structural)]
pub enum SpanKind {
    Server,
    Internal,
}

/// How what a span covers ended.
#[derive(Debug, Clone, PartialEq, Eq)]
pub struct SpanStatus {
    pub error: bool,
    pub message: String,
}

pub struct SpanStatusView {
    pub error: bool,
    pub message: Seq<char>,
}

impl View for SpanStatus {
    type V = SpanStatusView;

    open spec fn view(&self) -> SpanStatusView {
        SpanStatusView {
            error: self.error,
            message: self.message@,
        }
    }
}

impl Value for SpanStatus {
    fn copy(&self) -> (r: Self) {
        SpanStatus {
            error: self.error,
            message: self.message.copy(),
        }
    }

    fn same(&self, other: &Self) -> (r: bool) {
        self.error == other.error
            && self.message.same(&other.message)
    }
}

/// A span; without an end while what it covers is open.
#[derive(Debug, Clone, PartialEq, Eq)]
pub struct Span {
    pub name: String,
    pub kind: SpanKind,
    pub trace: Id128,
    pub id: Id128,
    pub parent: Option<Id128>,
    pub start: u64,
    pub end: Option<u64>,
    pub status: Option<SpanStatus>,
    pub attrs: Vec<Attribute>,
}

pub struct SpanView {
    pub name: Seq<char>,
    pub kind: SpanKind,
    pub trace: Seq<char>,
    pub id: Seq<char>,
    pub parent: Option<Seq<char>>,
    pub start: u64,
    pub end: Option<u64>,
    pub status: Option<SpanStatusView>,
    pub attrs: Seq<AttributeView>,
}

impl View for Span {
    type V = SpanView;

    open spec fn view(&self) -> SpanView {
        SpanView {
            name: self.name@,
            kind: self.kind,
            trace: self.trace@,
            id: self.id@,
            parent: value::opt_view(self.parent),
            start: self.start,
            end: self.end,
            status: value::opt_view(self.status),
            attrs: value::views(self.attrs@),
        }
    }
}

impl Value for Span {
    fn copy(&self) -> (r: Self) {
        Span {
            name: self.name.copy(),
            kind: self.kind,
            trace: self.trace.copy(),
            id: self.id.copy(),
            parent: value::copy_opt(&self.parent),
            start: self.start,
            end: self.end,
            status: value::copy_opt(&self.status),
            attrs: value::copy_vec(&self.attrs),
        }
    }

    fn same(&self, other: &Self) -> (r: bool) {
        self.name.same(&other.name)
            && self.kind == other.kind
            && self.trace.same(&other.trace)
            && self.id.same(&other.id)
            && value::same_opt(&self.parent, &other.parent)
            && self.start == other.start
            && value::same_opt(&self.end, &other.end)
            && value::same_opt(&self.status, &other.status)
            && value::same_vec(&self.attrs, &other.attrs)
    }
}

/// A gauge of a session.
#[derive(Debug, Clone, PartialEq, Eq)]
pub struct Gauge {
    pub name: String,
    pub value: i64,
    pub session: Id128,
}

pub struct GaugeView {
    pub name: Seq<char>,
    pub value: i64,
    pub session: Seq<char>,
}

impl View for Gauge {
    type V = GaugeView;

    open spec fn view(&self) -> GaugeView {
        GaugeView {
            name: self.name@,
            value: self.value,
            session: self.session@,
        }
    }
}

impl Value for Gauge {
    fn copy(&self) -> (r: Self) {
        Gauge {
            name: self.name.copy(),
            value: self.value,
            session: self.session.copy(),
        }
    }

    fn same(&self, other: &Self) -> (r: bool) {
        self.name.same(&other.name)
            && self.value == other.value
            && self.session.same(&other.session)
    }
}

pub open spec fn text_attr(name: Seq<char>, t: Seq<char>) -> AttributeView {
    AttributeView { name, value: AttrValueView::Str(t) }
}

pub open spec fn int_attr(name: Seq<char>, n: i64) -> AttributeView {
    AttributeView { name, value: AttrValueView::Int(n) }
}

fn text_attribute(name: &str, t: &str) -> (r: Attribute)
    ensures
        r@ == text_attr(name@, t@),
{
    Attribute { name: name.to_owned(), value: AttrValue::Str(t.to_owned()) }
}

fn int_attribute(name: &str, n: i64) -> (r: Attribute)
    ensures
        r@ == int_attr(name@, n),
{
    Attribute { name: name.to_owned(), value: AttrValue::Int(n) }
}

// ---------- runs ----------

/// The start of a run in nanoseconds, as far as it can be counted.
pub open spec fn start_nanos(secs: u64) -> u64 {
    if secs * 1_000_000_000 > u64::MAX {
        u64::MAX
    } else {
        (secs * 1_000_000_000) as u64
    }
}

/// The span of a run that starts.
pub open spec fn run_span(session: Seq<char>, run: Seq<char>, started: u64) -> SpanView {
    SpanView {
        name: "run"@,
        kind: SpanKind::Server,
        trace: session,
        id: run,
        parent: None,
        start: start_nanos(started),
        end: None,
        status: None,
        attrs: Seq::empty().push(text_attr("session_id"@, session)).push(
            text_attr("run_id"@, run),
        ).push(int_attr("started_at_secs"@, started as i64)),
    }
}

/// Opens the span of a run that started at `started` seconds.
pub fn telemetry_open_run(session: &Id128, run: &Id128, started: u64) -> (r: Span)
    ensures
        r@ == run_span(session@, run@, started),
{
    let start: u64 = match started.checked_mul(1_000_000_000) {
        Some(n) => n,
        None => u64::MAX,
    };
    let mut attrs: Vec<Attribute> = Vec::new();
    attrs.push(text_attribute("session_id", session.text.as_str()));
    attrs.push(text_attribute("run_id", run.text.as_str()));
    attrs.push(int_attribute("started_at_secs", started as i64));
    Span {
        name: "run".to_owned(),
        kind: SpanKind::Server,
        trace: session.copy(),
        id: run.copy(),
        parent: None,
        start,
        end: None,
        status: None,
        attrs,
    }
}

/// The span of a run that ended; a failure is an error.
pub open spec fn closed_run(
    span: SpanView,
    outcome: TerminalOutcomeView,
    tokens: u64,
    tools: u64,
    children: u64,
    now: u64,
) -> SpanView {
    let shown = runs::outcome_text(outcome);
    SpanView {
        end: Some(now),
        status: Some(SpanStatusView { error: outcome is Failed, message: shown }),
        attrs: span.attrs.push(text_attr("outcome"@, shown)).push(
            int_attr("tokens"@, tokens as i64),
        ).push(int_attr("tools"@, tools as i64)).push(int_attr("children"@, children as i64)),
        ..span
    }
}

/// Closes the span of a run with its outcome and its usage.
pub fn telemetry_close_run(
    span: Span,
    outcome: &TerminalOutcome,
    tokens: u64,
    tools: u64,
    children: u64,
    now: u64,
) -> (r: Span)
    ensures
        r@ == closed_run(span@, outcome@, tokens, tools, children, now),
{
    let error = match outcome {
        TerminalOutcome::Failed(_) => true,
        _ => false,
    };
    let shown = outcome.text();
    let ghost before = value::views(span.attrs@);
    let mut attrs = span.attrs;
    attrs.push(text_attribute("outcome", shown.as_str()));
    attrs.push(int_attribute("tokens", tokens as i64));
    attrs.push(int_attribute("tools", tools as i64));
    attrs.push(int_attribute("children", children as i64));
    assert(value::views(attrs@) =~= before.push(text_attr("outcome"@, shown@)).push(
        int_attr("tokens"@, tokens as i64),
    ).push(int_attr("tools"@, tools as i64)).push(int_attr("children"@, children as i64)));
    Span {
        name: span.name,
        kind: span.kind,
        trace: span.trace,
        id: span.id,
        parent: span.parent,
        start: span.start,
        end: Some(now),
        status: Some(SpanStatus { error, message: shown }),
        attrs,
    }
}

// ---------- commits ----------

/// A span over a moment.
pub open spec fn moment(
    name: Seq<char>,
    session: Seq<char>,
    id: Seq<char>,
    parent: Option<Seq<char>>,
    now: u64,
    attrs: Seq<AttributeView>,
) -> SpanView {
    SpanView {
        name,
        kind: SpanKind::Internal,
        trace: session,
        id,
        parent,
        start: now,
        end: Some(now),
        status: None,
        attrs,
    }
}

fn moment_span(
    name: &str,
    session: &Id128,
    id: Id128,
    parent: Option<Id128>,
    now: u64,
    attrs: Vec<Attribute>,
) -> (r: Span)
    ensures
        r@ == moment(
            name@,
            session@,
            id@,
            value::opt_view(parent),
            now,
            value::views(attrs@),
        ),
{
    Span {
        name: name.to_owned(),
        kind: SpanKind::Internal,
        trace: session.copy(),
        id,
        parent,
        start: now,
        end: Some(now),
        status: None,
        attrs,
    }
}

pub open spec fn commit_attrs(c: CommitReceiptView) -> Seq<AttributeView> {
    Seq::empty().push(int_attr("first_seq"@, c.first_seq as i64)).push(
        int_attr("last_seq"@, c.last_seq as i64),
    ).push(int_attr("count"@, c.count as i64)).push(
        int_attr("frame_len"@, c.frame_len as i64),
    ).push(int_attr("objects"@, c.objects.len() as i64))
}

/// The span of a commit, under the run's while one is open.
pub fn telemetry_commit(
    receipt: &CommitReceipt,
    session: &Id128,
    id: Id128,
    run: &Option<Span>,
    now: u64,
) -> (r: Span)
    ensures
        r@ == moment(
            "commit"@,
            session@,
            id@,
            match *run {
                Some(s) => Some(s@.id),
                None => None,
            },
            now,
            commit_attrs(receipt@),
        ),
{
    let mut attrs: Vec<Attribute> = Vec::new();
    attrs.push(int_attribute("first_seq", receipt.first_seq as i64));
    attrs.push(int_attribute("last_seq", receipt.last_seq as i64));
    attrs.push(int_attribute("count", receipt.count as i64));
    attrs.push(int_attribute("frame_len", receipt.frame_len as i64));
    attrs.push(int_attribute("objects", receipt.objects.len() as i64));
    assert(value::views(attrs@) =~= commit_attrs(receipt@));
    let parent = match run {
        Some(s) => Some(s.id.copy()),
        None => None,
    };
    moment_span("commit", session, id, parent, now, attrs)
}

pub open spec fn checkpoint_attrs(seq: u64, memory_root: Option<Seq<char>>) -> Seq<AttributeView> {
    let first = Seq::empty().push(int_attr("seq"@, seq as i64));
    match memory_root {
        Some(d) => first.push(text_attr("memory_root"@, d)),
        None => first,
    }
}

/// The span of a checkpoint.
pub fn telemetry_checkpoint(
    session: &Id128,
    id: Id128,
    seq: u64,
    memory_root: &Option<Digest>,
    now: u64,
) -> (r: Span)
    ensures
        r@ == moment(
            "checkpoint"@,
            session@,
            id@,
            None,
            now,
            checkpoint_attrs(seq, value::opt_view(*memory_root)),
        ),
{
    let mut attrs: Vec<Attribute> = Vec::new();
    attrs.push(int_attribute("seq", seq as i64));
    if let Some(d) = memory_root {
        attrs.push(text_attribute("memory_root", d.text.as_str()));
    }
    assert(value::views(attrs@) =~= checkpoint_attrs(seq, value::opt_view(*memory_root)));
    moment_span("checkpoint", session, id, None, now, attrs)
}

/// The span of a continuation.
pub fn telemetry_continue_from(
    session: &Id128,
    id: Id128,
    transition_seq: u64,
    branch: &Id128,
    now: u64,
) -> (r: Span)
    ensures
        r@ == moment(
            "continue_from"@,
            session@,
            id@,
            None,
            now,
            Seq::empty().push(int_attr("transition_seq"@, transition_seq as i64)).push(
                text_attr("branch"@, branch@),
            ),
        ),
{
    let mut attrs: Vec<Attribute> = Vec::new();
    attrs.push(int_attribute("transition_seq", transition_seq as i64));
    attrs.push(text_attribute("branch", branch.text.as_str()));
    assert(value::views(attrs@) =~= Seq::empty().push(
        int_attr("transition_seq"@, transition_seq as i64),
    ).push(text_attr("branch"@, branch@)));
    moment_span("continue_from", session, id, None, now, attrs)
}

// ---------- gauges ----------

pub open spec fn gauge(name: Seq<char>, v: i64, session: Seq<char>) -> GaugeView {
    GaugeView { name, value: v, session }
}

fn gauge_of(name: &str, v: i64, session: &Id128) -> (r: Gauge)
    ensures
        r@ == gauge(name@, v, session@),
{
    Gauge { name: name.to_owned(), value: v, session: session.copy() }
}

/// The gauges of a collection.
pub fn telemetry_gc(session: &Id128, swept: u64, restored_or_cleaned: u64) -> (r: Vec<Gauge>)
    ensures
        value::views(r@) == Seq::empty().push(
            gauge("kanbei.gc.swept"@, swept as i64, session@),
        ).push(gauge("kanbei.gc.restored_or_cleaned"@, restored_or_cleaned as i64, session@)),
{
    let mut out: Vec<Gauge> = Vec::new();
    out.push(gauge_of("kanbei.gc.swept", swept as i64, session));
    out.push(gauge_of("kanbei.gc.restored_or_cleaned", restored_or_cleaned as i64, session));
    assert(value::views(out@) =~= Seq::empty().push(
        gauge("kanbei.gc.swept"@, swept as i64, session@),
    ).push(gauge("kanbei.gc.restored_or_cleaned"@, restored_or_cleaned as i64, session@)));
    out
}

/// The gauges of a session's storage. The last committed seq is canonical, the
/// rest is what the files show; without a projection index there is no gauge
/// for it, rather than a zero.
pub open spec fn storage_gauges(
    session: Seq<char>,
    objects: u64,
    object_bytes: i64,
    log_bytes: u64,
    next_seq: u64,
    projection_bytes: Option<u64>,
) -> Seq<GaugeView> {
    let last: u64 = if next_seq == 0 {
        0
    } else {
        (next_seq - 1) as u64
    };
    let first = Seq::empty().push(
        gauge("kanbei.objects.count"@, objects as i64, session),
    ).push(gauge("kanbei.objects.bytes"@, object_bytes, session)).push(
        gauge("kanbei.log.bytes"@, log_bytes as i64, session),
    ).push(gauge("kanbei.log.seq"@, last as i64, session));
    match projection_bytes {
        Some(n) => first.push(gauge("kanbei.projection.bytes"@, n as i64, session)),
        None => first,
    }
}

pub fn telemetry_storage(
    session: &Id128,
    objects: u64,
    object_bytes: i64,
    log_bytes: u64,
    next_seq: u64,
    projection_bytes: Option<u64>,
) -> (r: Vec<Gauge>)
    ensures
        value::views(r@) == storage_gauges(
            session@,
            objects,
            object_bytes,
            log_bytes,
            next_seq,
            projection_bytes,
        ),
{
    let last: u64 = if next_seq == 0 {
        0
    } else {
        next_seq - 1
    };
    let mut out: Vec<Gauge> = Vec::new();
    out.push(gauge_of("kanbei.objects.count", objects as i64, session));
    out.push(gauge_of("kanbei.objects.bytes", object_bytes, session));
    out.push(gauge_of("kanbei.log.bytes", log_bytes as i64, session));
    out.push(gauge_of("kanbei.log.seq", last as i64, session));
    if let Some(n) = projection_bytes {
        out.push(gauge_of("kanbei.projection.bytes", n as i64, session));
    }
    assert(value::views(out@) =~= storage_gauges(
        session@,
        objects,
        object_bytes,
        log_bytes,
        next_seq,
        projection_bytes,
    ));
    out
}

/// The span of a run carries the session, the run and its start, in
/// nanoseconds as far as they can be counted.
pub proof fn law_runs_are_traced(session: Seq<char>, run: Seq<char>, started: u64)
    ensures
        ({
            let s = run_span(session, run, started);
            &&& s.trace == session
            &&& s.id == run
            &&& s.parent is None
            &&& s.end is None
            &&& s.status is None
            &&& started <= 18446744073 ==> s.start == started * 1_000_000_000
            &&& started > 18446744073 ==> s.start == u64::MAX
            &&& s.attrs.len() == 3
            &&& s.attrs[0].name == "session_id"@ && s.attrs[0].value == AttrValueView::Str(session)
            &&& s.attrs[1].name == "run_id"@ && s.attrs[1].value == AttrValueView::Str(run)
            &&& s.attrs[2].name == "started_at_secs"@ && (started <= i64::MAX ==> s.attrs[2].value
                == AttrValueView::Int(started as i64))
        }),
{
}

/// A closed run ends now, with its outcome and its usage after what it started
/// with, and only a failed one is an error.
pub proof fn law_closed_runs_report_their_usage(
    span: SpanView,
    outcome: TerminalOutcomeView,
    tokens: u64,
    tools: u64,
    children: u64,
    now: u64,
)
    ensures
        ({
            let s = closed_run(span, outcome, tokens, tools, children, now);
            let n = span.attrs.len() as int;
            &&& s.end == Some(now)
            &&& s.start == span.start
            &&& s.id == span.id
            &&& s.trace == span.trace
            &&& s.status is Some
            &&& s.status->0.error <==> outcome is Failed
            &&& s.status->0.message == runs::outcome_text(outcome)
            &&& s.attrs.take(n) == span.attrs
            &&& s.attrs.len() == n + 4
            &&& s.attrs[n] == (AttributeView {
                name: "outcome"@,
                value: AttrValueView::Str(runs::outcome_text(outcome)),
            })
            &&& s.attrs[n + 1] == (AttributeView {
                name: "tokens"@,
                value: AttrValueView::Int(tokens as i64),
            })
            &&& s.attrs[n + 2] == (AttributeView {
                name: "tools"@,
                value: AttrValueView::Int(tools as i64),
            })
            &&& s.attrs[n + 3] == (AttributeView {
                name: "children"@,
                value: AttrValueView::Int(children as i64),
            })
        }),
{
    let s = closed_run(span, outcome, tokens, tools, children, now);
    assert(s.attrs.take(span.attrs.len() as int) =~= span.attrs);
}

/// A moment starts and ends now, and a commit reports what its receipt says.
pub proof fn law_commits_are_reported(
    name: Seq<char>,
    session: Seq<char>,
    id: Seq<char>,
    parent: Option<Seq<char>>,
    now: u64,
    c: CommitReceiptView,
)
    ensures
        ({
            let s = moment(name, session, id, parent, now, commit_attrs(c));
            &&& s.name == name
            &&& s.trace == session
            &&& s.id == id
            &&& s.parent == parent
            &&& s.start == now
            &&& s.end == Some(now)
            &&& s.status is None
            &&& s.attrs == seq![
                AttributeView { name: "first_seq"@, value: AttrValueView::Int(c.first_seq as i64) },
                AttributeView { name: "last_seq"@, value: AttrValueView::Int(c.last_seq as i64) },
                AttributeView { name: "count"@, value: AttrValueView::Int(c.count as i64) },
                AttributeView { name: "frame_len"@, value: AttrValueView::Int(c.frame_len as i64) },
                AttributeView {
                    name: "objects"@,
                    value: AttrValueView::Int(c.objects.len() as i64),
                },
            ]
        }),
{
    assert(commit_attrs(c) =~= seq![
        AttributeView { name: "first_seq"@, value: AttrValueView::Int(c.first_seq as i64) },
        AttributeView { name: "last_seq"@, value: AttrValueView::Int(c.last_seq as i64) },
        AttributeView { name: "count"@, value: AttrValueView::Int(c.count as i64) },
        AttributeView { name: "frame_len"@, value: AttrValueView::Int(c.frame_len as i64) },
        AttributeView { name: "objects"@, value: AttrValueView::Int(c.objects.len() as i64) },
    ]);
}

/// The storage of a session is reported with the last seq that was committed,
/// one below the next, and the projection only where there is one.
pub proof fn law_storage_reports_the_last_seq(
    session: Seq<char>,
    objects: u64,
    object_bytes: i64,
    log_bytes: u64,
    next_seq: u64,
    projection_bytes: Option<u64>,
)
    ensures
        ({
            let g = storage_gauges(
                session,
                objects,
                object_bytes,
                log_bytes,
                next_seq,
                projection_bytes,
            );
            &&& g.len() == 4 + (if projection_bytes is Some {
                1int
            } else {
                0
            })
            &&& g[0] == (GaugeView {
                name: "kanbei.objects.count"@,
                value: objects as i64,
                session,
            })
            &&& g[1] == (GaugeView { name: "kanbei.objects.bytes"@, value: object_bytes, session })
            &&& g[2] == (GaugeView { name: "kanbei.log.bytes"@, value: log_bytes as i64, session })
            &&& g[3].name == "kanbei.log.seq"@ && g[3].session == session
            &&& next_seq == 0 ==> g[3].value == 0
            &&& 0 < next_seq <= i64::MAX ==> g[3].value == next_seq - 1
            &&& projection_bytes matches Some(n) ==> g[4] == (GaugeView {
                name: "kanbei.projection.bytes"@,
                value: n as i64,
                session,
            })
        }),
{
}

/// A checkpoint reports its seq, and its memory root where it has one.
pub proof fn law_checkpoints_are_reported(seq: u64, memory_root: Option<Seq<char>>)
    ensures
        checkpoint_attrs(seq, memory_root)[0] == (AttributeView {
            name: "seq"@,
            value: AttrValueView::Int(seq as i64),
        }),
        memory_root is None ==> checkpoint_attrs(seq, memory_root).len() == 1,
        memory_root matches Some(d) ==> checkpoint_attrs(seq, memory_root).len() == 2
            && checkpoint_attrs(seq, memory_root)[1] == (AttributeView {
            name: "memory_root"@,
            value: AttrValueView::Str(d),
        }),
{
}

} // verus!
