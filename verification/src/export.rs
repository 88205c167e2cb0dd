//! Bundle export: which objects a portable copy of a session needs, and what
//! it reports.
use vstd::prelude::*;
use vstd::string::*;
use crate::digests;
use crate::event;
use crate::event::{Codec, CodecView, LogRecord, LogRecordView};
use crate::ids::Digest;
use crate::text;
use crate::value;
use crate::value::Value;

verus! {

broadcast use value::group_views;

// ---------- the manifests ----------

/// The manifests that a record names: the snapshot it was committed against,
/// and the one that a checkpoint carries.
pub open spec fn named_manifests(r: LogRecordView, codec: CodecView) -> Seq<Seq<char>> {
    let own = match r.snapshot {
        Some(d) => Seq::empty().push(d),
        None => Seq::empty(),
    };
    if r.kind == "checkpoint_created"@ {
        match event::digest_member(codec, r.payload, "snapshot"@) {
            Some(d) => own.push(d),
            None => own,
        }
    } else {
        own
    }
}

pub open spec fn manifests_in(log: Seq<LogRecordView>, codec: CodecView) -> Seq<Seq<char>>
    decreases log.len(),
{
    if log.len() == 0 {
        Seq::empty()
    } else {
        manifests_in(log.drop_last(), codec) + named_manifests(log.last(), codec)
    }
}

/// The manifests that a bundle is to hold: those that the log names, and the
/// live one.
pub open spec fn bundle_manifests(
    log: Seq<LogRecordView>,
    current: Option<Seq<char>>,
    codec: CodecView,
) -> Seq<Seq<char>> {
    digests::sorted_set(
        match current {
            Some(d) => manifests_in(log, codec).push(d),
            None => manifests_in(log, codec),
        },
    )
}

/// Lists the manifests to export.
pub fn manifest_set(log: &Vec<LogRecord>, current: &Option<Digest>, codec: &Codec) -> (r: Vec<
    Digest,
>)
    ensures
        value::views(r@) == bundle_manifests(
            value::views(log@),
            value::opt_view(*current),
            codec@,
        ),
{
    let ghost all = value::views(log@);
    let mut out: Vec<Digest> = Vec::new();
    let mut i: usize = 0;
    assert(all.take(0) =~= Seq::empty());
    while i < log.len()
        invariant
            i <= log.len(),
            all == value::views(log@),
            value::views(out@) == manifests_in(all.take(i as int), codec@),
        decreases log.len() - i,
    {
        let ghost before = value::views(out@);
        let x = &log[i];
        proof {
            assert(all.take(i + 1).last() == log@[i as int]@);
            assert(all.take(i + 1).drop_last() =~= all.take(i as int));
        }
        if let Some(d) = &x.snapshot {
            out.push(d.copy());
        }
        if text::same_text(x.kind.as_str(), "checkpoint_created") {
            if let Some(d) = codec.digest_in(&x.payload, "snapshot") {
                out.push(d);
            }
        }
        assert(value::views(out@) =~= before + named_manifests(x@, codec@));
        i = i + 1;
    }
    assert(all.take(i as int) =~= all);
    if let Some(d) = current {
        out.push(d.copy());
    }
    digests::digest_set(out)
}

// ---------- the report ----------

/// An object of a manifest's closure.
#[derive(Debug, Clone, PartialEq, Eq)]
pub struct ClosureObject {
    pub digest: Digest,
    /// The store has it, and it was copied.
    pub present: bool,
}

pub struct ClosureObjectView {
    pub digest: Seq<char>,
    pub present: bool,
}

impl View for ClosureObject {
    type V = ClosureObjectView;

    open spec fn view(&self) -> ClosureObjectView {
        ClosureObjectView {
            digest: self.digest@,
            present: self.present,
        }
    }
}

impl Value for ClosureObject {
    fn copy(&self) -> (r: Self) {
        ClosureObject {
            digest: self.digest.copy(),
            present: self.present,
        }
    }

    fn same(&self, other: &Self) -> (r: bool) {
        self.digest.same(&other.digest)
            && self.present == other.present
    }
}

/// What became of a manifest.
#[derive(Debug, Clone, PartialEq, Eq)]
pub enum ManifestFinding {
    /// The store does not have it.
    Absent { digest: Digest },
    /// Its bytes were copied, and are no manifest.
    Unreadable { digest: Digest },
    /// It was copied; its closure, and the identities it pins that are no objects.
    Read { closure: Vec<ClosureObject>, pins: Vec<Digest> },
}

pub enum ManifestFindingView {
    Absent { digest: Seq<char> },
    Unreadable { digest: Seq<char> },
    Read { closure: Seq<ClosureObjectView>, pins: Seq<Seq<char>> },
}

impl View for ManifestFinding {
    type V = ManifestFindingView;

    open spec fn view(&self) -> ManifestFindingView {
        match *self {
            ManifestFinding::Absent { digest } => ManifestFindingView::Absent { digest: digest@ },
            ManifestFinding::Unreadable { digest } => ManifestFindingView::Unreadable { digest: digest@ },
            ManifestFinding::Read { closure, pins } => ManifestFindingView::Read { closure: value::views(closure@), pins: value::views(pins@) },
        }
    }
}

impl Value for ManifestFinding {
    fn copy(&self) -> (r: Self) {
        match self {
            ManifestFinding::Absent { digest } => ManifestFinding::Absent { digest: digest.copy() },
            ManifestFinding::Unreadable { digest } => ManifestFinding::Unreadable { digest: digest.copy() },
            ManifestFinding::Read { closure, pins } => ManifestFinding::Read { closure: value::copy_vec(closure), pins: value::copy_vec(pins) },
        }
    }

    fn same(&self, other: &Self) -> (r: bool) {
        match (self, other) {
            (ManifestFinding::Absent { digest }, ManifestFinding::Absent { digest: digest_other }) => digest.same(digest_other),
            (ManifestFinding::Unreadable { digest }, ManifestFinding::Unreadable { digest: digest_other }) => digest.same(digest_other),
            (ManifestFinding::Read { closure, pins }, ManifestFinding::Read { closure: closure_other, pins: pins_other }) => value::same_vec(closure, closure_other) && value::same_vec(pins, pins_other),
            _ => false,
        }
    }
}

/// What an export produced.
#[derive(Debug, Clone, PartialEq, Eq)]
pub struct ExportReport {
    pub frames: u64,
    pub envelopes: u64,
    /// How many manifests were copied.
    pub manifests: usize,
    /// How many objects were copied.
    pub objects: usize,
    /// Every manifest or object that could not be had.
    pub missing: Vec<Digest>,
    pub identity_pins: Vec<Digest>,
    /// Nothing is missing.
    pub verified: bool,
}

pub struct ExportReportView {
    pub frames: u64,
    pub envelopes: u64,
    pub manifests: nat,
    pub objects: nat,
    pub missing: Seq<Seq<char>>,
    pub identity_pins: Seq<Seq<char>>,
    pub verified: bool,
}

impl View for ExportReport {
    type V = ExportReportView;

    open spec fn view(&self) -> ExportReportView {
        ExportReportView {
            frames: self.frames,
            envelopes: self.envelopes,
            manifests: self.manifests as nat,
            objects: self.objects as nat,
            missing: value::views(self.missing@),
            identity_pins: value::views(self.identity_pins@),
            verified: self.verified,
        }
    }
}

impl Value for ExportReport {
    fn copy(&self) -> (r: Self) {
        ExportReport {
            frames: self.frames,
            envelopes: self.envelopes,
            manifests: self.manifests,
            objects: self.objects,
            missing: value::copy_vec(&self.missing),
            identity_pins: value::copy_vec(&self.identity_pins),
            verified: self.verified,
        }
    }

    fn same(&self, other: &Self) -> (r: bool) {
        self.frames == other.frames
            && self.envelopes == other.envelopes
            && self.manifests == other.manifests
            && self.objects == other.objects
            && value::same_vec(&self.missing, &other.missing)
            && value::same_vec(&self.identity_pins, &other.identity_pins)
            && self.verified == other.verified
    }
}

pub open spec fn copied_objects(c: Seq<ClosureObjectView>) -> Seq<Seq<char>>
    decreases c.len(),
{
    if c.len() == 0 {
        Seq::empty()
    } else if c.last().present {
        copied_objects(c.drop_last()).push(c.last().digest)
    } else {
        copied_objects(c.drop_last())
    }
}

pub open spec fn absent_objects(c: Seq<ClosureObjectView>) -> Seq<Seq<char>>
    decreases c.len(),
{
    if c.len() == 0 {
        Seq::empty()
    } else if c.last().present {
        absent_objects(c.drop_last())
    } else {
        absent_objects(c.drop_last()).push(c.last().digest)
    }
}

/// What a finding reports as missing.
pub open spec fn missing_of(f: ManifestFindingView) -> Seq<Seq<char>> {
    match f {
        ManifestFindingView::Absent { digest } => Seq::empty().push(digest),
        ManifestFindingView::Unreadable { digest } => Seq::empty().push(digest),
        ManifestFindingView::Read { closure, .. } => absent_objects(closure),
    }
}

pub open spec fn copied_of(f: ManifestFindingView) -> Seq<Seq<char>> {
    match f {
        ManifestFindingView::Read { closure, .. } => copied_objects(closure),
        _ => Seq::empty(),
    }
}

pub open spec fn pins_of(f: ManifestFindingView) -> Seq<Seq<char>> {
    match f {
        ManifestFindingView::Read { pins, .. } => pins,
        _ => Seq::empty(),
    }
}

pub open spec fn all_missing(s: Seq<ManifestFindingView>) -> Seq<Seq<char>>
    decreases s.len(),
{
    if s.len() == 0 {
        Seq::empty()
    } else {
        all_missing(s.drop_last()) + missing_of(s.last())
    }
}

pub open spec fn all_copied(s: Seq<ManifestFindingView>) -> Seq<Seq<char>>
    decreases s.len(),
{
    if s.len() == 0 {
        Seq::empty()
    } else {
        all_copied(s.drop_last()) + copied_of(s.last())
    }
}

pub open spec fn all_pins(s: Seq<ManifestFindingView>) -> Seq<Seq<char>>
    decreases s.len(),
{
    if s.len() == 0 {
        Seq::empty()
    } else {
        all_pins(s.drop_last()) + pins_of(s.last())
    }
}

/// How many manifests were copied.
pub open spec fn copied_manifests(s: Seq<ManifestFindingView>) -> nat
    decreases s.len(),
{
    if s.len() == 0 {
        0
    } else if s.last() is Absent {
        copied_manifests(s.drop_last())
    } else {
        copied_manifests(s.drop_last()) + 1
    }
}

/// The report on a bundle.
pub open spec fn report_of(frames: u64, envelopes: u64, s: Seq<ManifestFindingView>) -> ExportReportView {
    let missing = digests::sorted_set(all_missing(s));
    ExportReportView {
        frames,
        envelopes,
        manifests: copied_manifests(s),
        objects: digests::sorted_set(all_copied(s)).len(),
        missing,
        identity_pins: digests::sorted_set(all_pins(s)),
        verified: missing.len() == 0,
    }
}

fn note_objects(closure: &Vec<ClosureObject>, copied: &mut Vec<Digest>, missing: &mut Vec<Digest>)
    ensures
        value::views(final(copied)@) == value::views(old(copied)@) + copied_objects(
            value::views(closure@),
        ),
        value::views(final(missing)@) == value::views(old(missing)@) + absent_objects(
            value::views(closure@),
        ),
{
    let ghost all = value::views(closure@);
    let ghost first = value::views(copied@);
    let ghost second = value::views(missing@);
    let mut i: usize = 0;
    assert(all.take(0) =~= Seq::empty());
    while i < closure.len()
        invariant
            i <= closure.len(),
            all == value::views(closure@),
            value::views(copied@) == first + copied_objects(all.take(i as int)),
            value::views(missing@) == second + absent_objects(all.take(i as int)),
        decreases closure.len() - i,
    {
        proof {
            assert(all.take(i + 1).last() == closure@[i as int]@);
            assert(all.take(i + 1).drop_last() =~= all.take(i as int));
        }
        if closure[i].present {
            copied.push(closure[i].digest.copy());
        } else {
            missing.push(closure[i].digest.copy());
        }
        assert(value::views(copied@) =~= first + copied_objects(all.take(i + 1)));
        assert(value::views(missing@) =~= second + absent_objects(all.take(i + 1)));
        i = i + 1;
    }
    assert(all.take(i as int) =~= all);
}

/// Reports on a bundle. What is missing never fails an export: it is
/// reported, and the bundle is then not verified.
pub fn export_bundle(frames: u64, envelopes: u64, findings: &Vec<ManifestFinding>) -> (r:
    ExportReport)
    ensures
        r@ == report_of(frames, envelopes, value::views(findings@)),
{
    let ghost all = value::views(findings@);
    let mut manifests: usize = 0;
    let mut copied: Vec<Digest> = Vec::new();
    let mut missing: Vec<Digest> = Vec::new();
    let mut pins: Vec<Digest> = Vec::new();
    let mut i: usize = 0;
    assert(all.take(0) =~= Seq::empty());
    while i < findings.len()
        invariant
            i <= findings.len(),
            all == value::views(findings@),
            manifests <= i,
            manifests == copied_manifests(all.take(i as int)),
            value::views(copied@) == all_copied(all.take(i as int)),
            value::views(missing@) == all_missing(all.take(i as int)),
            value::views(pins@) == all_pins(all.take(i as int)),
        decreases findings.len() - i,
    {
        let ghost c0 = value::views(copied@);
        let ghost m0 = value::views(missing@);
        let ghost p0 = value::views(pins@);
        let x = &findings[i];
        proof {
            assert(all.take(i + 1).last() == x@);
            assert(all.take(i + 1).drop_last() =~= all.take(i as int));
        }
        match x {
            ManifestFinding::Absent { digest } => {
                missing.push(digest.copy());
            },
            ManifestFinding::Unreadable { digest } => {
                manifests = manifests + 1;
                missing.push(digest.copy());
            },
            ManifestFinding::Read { closure, pins: own } => {
                manifests = manifests + 1;
                note_objects(closure, &mut copied, &mut missing);
                let mut more = value::copy_vec(own);
                pins.append(&mut more);
            },
        }
        assert(value::views(copied@) =~= c0 + copied_of(x@));
        assert(value::views(missing@) =~= m0 + missing_of(x@));
        assert(value::views(pins@) =~= p0 + pins_of(x@));
        i = i + 1;
    }
    assert(all.take(i as int) =~= all);
    let missing = digests::digest_set(missing);
    let objects = digests::digest_set(copied);
    let verified = missing.len() == 0;
    ExportReport {
        frames,
        envelopes,
        manifests,
        objects: objects.len(),
        missing,
        identity_pins: digests::digest_set(pins),
        verified,
    }
}

// ---------- laws ----------

/// A verified bundle lacks nothing: every manifest was read and every object
/// of its closure copied.
pub proof fn law_verified_bundles_are_complete(
    frames: u64,
    envelopes: u64,
    s: Seq<ManifestFindingView>,
    i: int,
)
    requires
        report_of(frames, envelopes, s).verified,
        0 <= i < s.len(),
    ensures
        s[i] matches ManifestFindingView::Read { closure, .. } && forall|j: int|
            0 <= j < closure.len() ==> (#[trigger] closure[j]).present,
{
    let all = all_missing(s);
    assert(all.len() == 0) by {
        if all.len() > 0 {
            digests::law_sets_hold_their_elements_once(all, all[0]);
            assert(all.contains(all[0]));
            let k = choose|k: int|
                0 <= k < digests::sorted_set(all).len() && digests::sorted_set(all)[k] == all[0];
            assert(digests::sorted_set(all).len() > 0);
        }
    }
    lemma_nothing_missing(s, i);
    if let ManifestFindingView::Read { closure, .. } = s[i] {
        lemma_no_absent(closure);
    }
}

proof fn lemma_nothing_missing(s: Seq<ManifestFindingView>, i: int)
    requires
        all_missing(s).len() == 0,
        0 <= i < s.len(),
    ensures
        missing_of(s[i]).len() == 0,
    decreases s.len(),
{
    let d = s.drop_last();
    assert(all_missing(s) == all_missing(d) + missing_of(s.last()));
    if i < d.len() {
        assert(d[i] == s[i]);
        lemma_nothing_missing(d, i);
    }
}

proof fn lemma_no_absent(c: Seq<ClosureObjectView>)
    requires
        absent_objects(c).len() == 0,
    ensures
        forall|j: int| 0 <= j < c.len() ==> (#[trigger] c[j]).present,
    decreases c.len(),
{
    if c.len() > 0 {
        let d = c.drop_last();
        lemma_no_absent(d);
        assert forall|j: int| 0 <= j < c.len() implies (#[trigger] c[j]).present by {
            if j < d.len() {
                assert(d[j] == c[j]);
            }
        }
    }
}

proof fn lemma_manifests_in(log: Seq<LogRecordView>, codec: CodecView, d: Seq<char>)
    ensures
        manifests_in(log, codec).contains(d) <==> exists|i: int|
            0 <= i < log.len() && ((#[trigger] log[i]).snapshot == Some(d) || (log[i].kind
                == "checkpoint_created"@ && event::digest_member(
                codec,
                log[i].payload,
                "snapshot"@,
            ) == Some(d))),
    decreases log.len(),
{
    if log.len() > 0 {
        let rest = log.drop_last();
        let r = log.last();
        lemma_manifests_in(rest, codec, d);
        digests::lemma_joined(manifests_in(rest, codec), named_manifests(r, codec), d);
        digests::lemma_one(r.snapshot, d);
        let carried = if r.kind == "checkpoint_created"@ {
            event::digest_member(codec, r.payload, "snapshot"@)
        } else {
            None
        };
        digests::lemma_one(carried, d);
        digests::lemma_joined(digests::one(r.snapshot), digests::one(carried), d);
        assert(named_manifests(r, codec) =~= digests::one(r.snapshot) + digests::one(carried));
        if manifests_in(rest, codec).contains(d) {
            let i = choose|i: int|
                0 <= i < rest.len() && ((#[trigger] rest[i]).snapshot == Some(d) || (rest[i].kind
                    == "checkpoint_created"@ && event::digest_member(
                    codec,
                    rest[i].payload,
                    "snapshot"@,
                ) == Some(d)));
            assert(log[i] == rest[i]);
        }
        if named_manifests(r, codec).contains(d) {
            assert(log[log.len() - 1] == r);
        }
        assert forall|i: int|
            0 <= i < log.len() && ((#[trigger] log[i]).snapshot == Some(d) || (log[i].kind
                == "checkpoint_created"@ && event::digest_member(
                codec,
                log[i].payload,
                "snapshot"@,
            ) == Some(d))) implies manifests_in(log, codec).contains(d) by {
            if i < rest.len() {
                assert(rest[i] == log[i]);
            }
        }
    }
}

/// A bundle holds the live snapshot, the snapshot of every record of the log and
/// the one that every checkpoint carries, each once, and no other manifest.
pub proof fn law_bundles_hold_every_manifest(
    log: Seq<LogRecordView>,
    current: Option<Seq<char>>,
    codec: CodecView,
    d: Seq<char>,
)
    ensures
        bundle_manifests(log, current, codec).contains(d) <==> current == Some(d) || exists|i: int|
            0 <= i < log.len() && ((#[trigger] log[i]).snapshot == Some(d) || (log[i].kind
                == "checkpoint_created"@ && event::digest_member(
                codec,
                log[i].payload,
                "snapshot"@,
            ) == Some(d))),
        bundle_manifests(log, current, codec).no_duplicates(),
{
    let named = manifests_in(log, codec);
    lemma_manifests_in(log, codec, d);
    digests::lemma_one(current, d);
    digests::lemma_joined(named, digests::one(current), d);
    let all = named + digests::one(current);
    assert(bundle_manifests(log, current, codec) == digests::sorted_set(all)) by {
        match current {
            Some(x) => {
                assert(named.push(x) =~= all);
            },
            None => {
                assert(named =~= all);
            },
        }
    }
    digests::law_sets_hold_their_elements_once(all, d);
}

proof fn lemma_objects(c: Seq<ClosureObjectView>, d: Seq<char>)
    ensures
        copied_objects(c).contains(d) <==> exists|j: int|
            0 <= j < c.len() && (#[trigger] c[j]).present && c[j].digest == d,
        absent_objects(c).contains(d) <==> exists|j: int|
            0 <= j < c.len() && !(#[trigger] c[j]).present && c[j].digest == d,
    decreases c.len(),
{
    if c.len() > 0 {
        let r = c.drop_last();
        lemma_objects(r, d);
        assert(c[c.len() - 1] == c.last());
        assert(forall|j: int| 0 <= j < r.len() ==> #[trigger] r[j] == c[j]);
        let one = Seq::<Seq<char>>::empty().push(c.last().digest);
        assert(one[0] == c.last().digest);
        if c.last().present {
            assert(copied_objects(c) =~= copied_objects(r) + one);
            digests::lemma_joined(copied_objects(r), one, d);
        } else {
            assert(absent_objects(c) =~= absent_objects(r) + one);
            digests::lemma_joined(absent_objects(r), one, d);
        }
        assert(one.contains(d) <==> d == c.last().digest);
        if exists|j: int| 0 <= j < r.len() && (#[trigger] r[j]).present && r[j].digest == d {
            let j = choose|j: int| 0 <= j < r.len() && (#[trigger] r[j]).present && r[j].digest == d;
            assert(c[j].present && c[j].digest == d);
        }
        if exists|j: int| 0 <= j < r.len() && !(#[trigger] r[j]).present && r[j].digest == d {
            let j = choose|j: int|
                0 <= j < r.len() && !(#[trigger] r[j]).present && r[j].digest == d;
            assert(!c[j].present && c[j].digest == d);
        }
        if exists|j: int| 0 <= j < c.len() && (#[trigger] c[j]).present && c[j].digest == d {
            let j = choose|j: int| 0 <= j < c.len() && (#[trigger] c[j]).present && c[j].digest == d;
            if j < r.len() {
                assert(r[j].present && r[j].digest == d);
            }
        }
        if exists|j: int| 0 <= j < c.len() && !(#[trigger] c[j]).present && c[j].digest == d {
            let j = choose|j: int|
                0 <= j < c.len() && !(#[trigger] c[j]).present && c[j].digest == d;
            if j < r.len() {
                assert(!r[j].present && r[j].digest == d);
            }
        }
    }
}

/// A finding lacks a digest: the manifest itself, or an object of its closure.
pub open spec fn lacks(f: ManifestFindingView, d: Seq<char>) -> bool {
    match f {
        ManifestFindingView::Absent { digest } => digest == d,
        ManifestFindingView::Unreadable { digest } => digest == d,
        ManifestFindingView::Read { closure, .. } => exists|j: int|
            0 <= j < closure.len() && !(#[trigger] closure[j]).present && closure[j].digest == d,
    }
}

/// A finding has an object of its closure.
pub open spec fn brings(f: ManifestFindingView, d: Seq<char>) -> bool {
    f matches ManifestFindingView::Read { closure, .. } && exists|j: int|
        0 <= j < closure.len() && (#[trigger] closure[j]).present && closure[j].digest == d
}

/// A finding names an identity.
pub open spec fn pins(f: ManifestFindingView, d: Seq<char>) -> bool {
    f is Read && f->pins.contains(d)
}

proof fn lemma_findings(s: Seq<ManifestFindingView>, d: Seq<char>)
    ensures
        all_missing(s).contains(d) <==> exists|i: int| 0 <= i < s.len() && lacks(#[trigger] s[i], d),
        all_copied(s).contains(d) <==> exists|i: int| 0 <= i < s.len() && brings(#[trigger] s[i], d),
        all_pins(s).contains(d) <==> exists|i: int| 0 <= i < s.len() && pins(#[trigger] s[i], d),
    decreases s.len(),
{
    if s.len() > 0 {
        let r = s.drop_last();
        let f = s.last();
        lemma_findings(r, d);
        assert(s[s.len() - 1] == f);
        assert(forall|i: int| 0 <= i < r.len() ==> #[trigger] r[i] == s[i]);
        digests::lemma_joined(all_missing(r), missing_of(f), d);
        digests::lemma_joined(all_copied(r), copied_of(f), d);
        digests::lemma_joined(all_pins(r), pins_of(f), d);
        match f {
            ManifestFindingView::Absent { digest } => {
                digests::lemma_one(Some(digest), d);
                assert(missing_of(f) =~= digests::one(Some(digest)));
            },
            ManifestFindingView::Unreadable { digest } => {
                digests::lemma_one(Some(digest), d);
                assert(missing_of(f) =~= digests::one(Some(digest)));
            },
            ManifestFindingView::Read { closure, .. } => {
                lemma_objects(closure, d);
            },
        }
        assert(missing_of(f).contains(d) <==> lacks(f, d));
        assert(copied_of(f).contains(d) <==> brings(f, d));
        assert(pins_of(f).contains(d) <==> pins(f, d));
        if exists|i: int| 0 <= i < r.len() && lacks(#[trigger] r[i], d) {
            let i = choose|i: int| 0 <= i < r.len() && lacks(#[trigger] r[i], d);
            assert(lacks(s[i], d));
        }
        if exists|i: int| 0 <= i < r.len() && brings(#[trigger] r[i], d) {
            let i = choose|i: int| 0 <= i < r.len() && brings(#[trigger] r[i], d);
            assert(brings(s[i], d));
        }
        if exists|i: int| 0 <= i < r.len() && pins(#[trigger] r[i], d) {
            let i = choose|i: int| 0 <= i < r.len() && pins(#[trigger] r[i], d);
            assert(pins(s[i], d));
        }
        if exists|i: int| 0 <= i < s.len() && lacks(#[trigger] s[i], d) {
            let i = choose|i: int| 0 <= i < s.len() && lacks(#[trigger] s[i], d);
            if i < r.len() {
                assert(lacks(r[i], d));
            }
        }
        if exists|i: int| 0 <= i < s.len() && brings(#[trigger] s[i], d) {
            let i = choose|i: int| 0 <= i < s.len() && brings(#[trigger] s[i], d);
            if i < r.len() {
                assert(brings(r[i], d));
            }
        }
        if exists|i: int| 0 <= i < s.len() && pins(#[trigger] s[i], d) {
            let i = choose|i: int| 0 <= i < s.len() && pins(#[trigger] s[i], d);
            if i < r.len() {
                assert(pins(r[i], d));
            }
        }
    }
}

/// A report lists exactly what some finding lacks and every identity that one
/// names, each once, and the bundle is verified exactly if nothing is lacking.
pub proof fn law_reports_list_what_is_missing(
    frames: u64,
    envelopes: u64,
    s: Seq<ManifestFindingView>,
    d: Seq<char>,
)
    ensures
        ({
            let r = report_of(frames, envelopes, s);
            &&& r.frames == frames
            &&& r.envelopes == envelopes
            &&& r.missing.contains(d) <==> exists|i: int|
                0 <= i < s.len() && lacks(#[trigger] s[i], d)
            &&& r.missing.no_duplicates()
            &&& r.identity_pins.contains(d) <==> exists|i: int|
                0 <= i < s.len() && pins(#[trigger] s[i], d)
            &&& r.verified <==> r.missing.len() == 0
            &&& exists|objects: Seq<Seq<char>>|
                #![trigger objects.len()]
                r.objects == objects.len() && objects.no_duplicates() && (objects.contains(d)
                    <==> exists|i: int| 0 <= i < s.len() && brings(#[trigger] s[i], d))
        }),
{
    lemma_findings(s, d);
    digests::law_sets_hold_their_elements_once(all_missing(s), d);
    digests::law_sets_hold_their_elements_once(all_copied(s), d);
    digests::law_sets_hold_their_elements_once(all_pins(s), d);
    let objects = digests::sorted_set(all_copied(s));
    assert(report_of(frames, envelopes, s).objects == objects.len());
}

/// Every manifest that was there counts as copied, also one that cannot be
/// read.
pub proof fn law_present_manifests_are_copied(
    frames: u64,
    envelopes: u64,
    s: Seq<ManifestFindingView>,
    f: ManifestFindingView,
)
    ensures
        report_of(frames, envelopes, Seq::empty()).manifests == 0,
        f is Absent ==> report_of(frames, envelopes, s.push(f)).manifests == report_of(
            frames,
            envelopes,
            s,
        ).manifests,
        !(f is Absent) ==> report_of(frames, envelopes, s.push(f)).manifests == report_of(
            frames,
            envelopes,
            s,
        ).manifests + 1,
{
    assert(s.push(f).drop_last() =~= s);
}

} // verus!
