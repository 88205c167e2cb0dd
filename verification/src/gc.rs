//! Collection of canonical objects: what keeps an object alive.
use vstd::prelude::*;
use vstd::string::*;
use crate::branch::{BranchRecord, BranchRecordView, PinnedRoots, PinnedRootsView};
use crate::commit::{CompactedRange, CompactedRangeView};
use crate::digests;
use crate::elements::{ConfigLayer, ConfigLayerView};
use crate::event;
use crate::event::{Codec, CodecView, Event, EventView, LogRecord, LogRecordView};
use crate::ids::Digest;
use crate::json;
use crate::json::{Json, JsonView};
use crate::text;
use crate::value;
use crate::value::Value;

verus! {

broadcast use value::group_views;

// ---------- live roots ----------

/// The digests that a branch's config choice names.
pub open spec fn chosen(r: BranchRecordView) -> Seq<Seq<char>> {
    digests::one(r.config_choice.current) + digests::one(r.config_choice.historical) + digests::one(
        r.config_choice.composition,
    ) + r.config_choice.layers
}

pub open spec fn all_chosen(s: Seq<BranchRecordView>) -> Seq<Seq<char>>
    decreases s.len(),
{
    if s.len() == 0 {
        Seq::empty()
    } else {
        all_chosen(s.drop_last()) + chosen(s.last())
    }
}

pub open spec fn pinned_digests(p: Option<PinnedRootsView>) -> Seq<Seq<char>> {
    match p {
        Some(p) => Seq::empty().push(p.lifetime) + digests::one(p.project),
        None => Seq::empty(),
    }
}

/// The live roots that no record of the log covers: the current snapshot, the
/// packages of the active layers, the pinned memory roots, the config choices
/// of the branches, and the summaries of the compactions.
pub open spec fn live_roots_of(
    current: Option<Seq<char>>,
    layers: Seq<ConfigLayerView>,
    pinned: Option<PinnedRootsView>,
    records: Seq<BranchRecordView>,
    compacted: Seq<CompactedRangeView>,
) -> Seq<Seq<char>> {
    digests::one(current) + layers.map_values(|l: ConfigLayerView| l.package) + pinned_digests(pinned)
        + all_chosen(records) + compacted.map_values(|c: CompactedRangeView| c.summary_digest)
}

/// Lists the live roots of a session.
pub fn gc_live_roots(
    current: &Option<Digest>,
    layers: &Vec<ConfigLayer>,
    pinned: &Option<PinnedRoots>,
    records: &Vec<BranchRecord>,
    compacted: &Vec<CompactedRange>,
) -> (r: Vec<Digest>)
    ensures
        value::views(r@) == live_roots_of(
            value::opt_view(*current),
            value::views(layers@),
            value::opt_view(*pinned),
            value::views(records@),
            value::views(compacted@),
        ),
{
    let mut out: Vec<Digest> = Vec::new();
    digests::push_opt(&mut out, current);
    let packages = crate::elements::config_layer_digests(layers);
    digests::push_all(&mut out, &packages);
    let ghost layered = value::views(layers@).map_values(|l: ConfigLayerView| l.package);
    assert(value::views(packages@) =~= layered);
    let ghost base = value::views(out@);
    if let Some(p) = pinned {
        out.push(p.lifetime.copy());
        digests::push_opt(&mut out, &p.project);
    }
    let ghost two = base + pinned_digests(value::opt_view(*pinned));
    assert(value::views(out@) =~= two);
    let ghost all = value::views(records@);
    let mut i: usize = 0;
    assert(all.take(0) =~= Seq::empty());
    assert(value::views(out@) =~= two + all_chosen(all.take(0)));
    while i < records.len()
        invariant
            i <= records.len(),
            all == value::views(records@),
            value::views(out@) == two + all_chosen(all.take(i as int)),
        decreases records.len() - i,
    {
        let ghost before = value::views(out@);
        proof {
            assert(all.take(i + 1).last() == records@[i as int]@);
            assert(all.take(i + 1).drop_last() =~= all.take(i as int));
        }
        let c = &records[i].config_choice;
        digests::push_opt(&mut out, &c.current);
        digests::push_opt(&mut out, &c.historical);
        digests::push_opt(&mut out, &c.composition);
        digests::push_all(&mut out, &c.layers);
        assert(value::views(out@) =~= before + chosen(records@[i as int]@));
        assert(value::views(out@) =~= two + all_chosen(all.take(i + 1)));
        i = i + 1;
    }
    assert(all.take(i as int) =~= all);
    let ghost three = value::views(out@);
    let ghost sums = value::views(compacted@).map_values(
        |c: CompactedRangeView| c.summary_digest,
    );
    let mut k: usize = 0;
    assert(value::views(out@) =~= three + sums.take(0));
    while k < compacted.len()
        invariant
            k <= compacted.len(),
            sums == value::views(compacted@).map_values(|c: CompactedRangeView| c.summary_digest),
            value::views(out@) == three + sums.take(k as int),
        decreases compacted.len() - k,
    {
        out.push(compacted[k].summary_digest.copy());
        assert(sums.take(k + 1) =~= sums.take(k as int).push(sums[k as int]));
        assert(value::views(out@) =~= three + sums.take(k + 1));
        k = k + 1;
    }
    assert(sums.take(k as int) =~= sums);
    out
}

// ---------- writer pins ----------

/// The digests that an install in flight refers to: a collection never
/// touches them.
pub struct WriterPins {
    pins: Vec<Digest>,
}

impl View for WriterPins {
    type V = Set<Seq<char>>;

    closed spec fn view(&self) -> Set<Seq<char>> {
        Set::new(|t: Seq<char>| value::views(self.pins@).contains(t))
    }
}

impl WriterPins {
    pub fn new() -> (r: Self)
        ensures
            r@ == Set::<Seq<char>>::empty(),
    {
        let r = WriterPins { pins: Vec::new() };
        assert(r@ =~= Set::empty());
        r
    }

    /// Whether a digest is pinned.
    pub fn contains(&self, digest: &Digest) -> (r: bool)
        ensures
            r == self@.contains(digest@),
    {
        value::occurs(&self.pins, digest)
    }

    /// Marks a digest as referred to by a writer.
    pub fn gc_pin(&mut self, digest: &Digest)
        ensures
            final(self)@ == old(self)@.insert(digest@),
    {
        let ghost before = value::views(self.pins@);
        self.pins.push(digest.copy());
        let ghost after = value::views(self.pins@);
        proof {
            assert(after =~= before.push(digest@));
            assert forall|t: Seq<char>| after.contains(t) == (before.contains(t) || t
                == digest@) by {
                if before.contains(t) {
                    let i = choose|i: int| 0 <= i < before.len() && before[i] == t;
                    assert(after[i] == t);
                }
                if t == digest@ {
                    assert(after[before.len() as int] == t);
                }
                if after.contains(t) {
                    let i = choose|i: int| 0 <= i < after.len() && after[i] == t;
                    if i < before.len() {
                        assert(before[i] == t);
                    }
                }
            }
            assert(self@ =~= old(self)@.insert(digest@));
        }
    }

    /// Removes a writer's mark.
    pub fn gc_unpin(&mut self, digest: &Digest)
        ensures
            final(self)@ == old(self)@.remove(digest@),
    {
        let ghost before = value::views(self.pins@);
        let mut kept: Vec<Digest> = Vec::new();
        let mut i: usize = 0;
        while i < self.pins.len()
            invariant
                i <= self.pins.len(),
                before == value::views(self.pins@),
                *self == *old(self),
                forall|t: Seq<char>| #[trigger]
                    value::views(kept@).contains(t) <==> before.take(i as int).contains(t) && t
                        != digest@,
            decreases self.pins.len() - i,
        {
            let ghost held = value::views(kept@);
            let ghost x = self.pins@[i as int]@;
            if !self.pins[i].same(digest) {
                kept.push(self.pins[i].copy());
                assert(value::views(kept@) =~= held.push(x));
            }
            proof {
                let now = value::views(kept@);
                let seen = before.take(i as int);
                assert(before.take(i + 1) =~= seen.push(x));
                assert forall|t: Seq<char>| #[trigger] now.contains(t) <==> before.take(
                    i + 1,
                ).contains(t) && t != digest@ by {
                    lemma_push_contains(seen, x, t);
                    lemma_push_contains(held, x, t);
                    assert(held.contains(t) <==> seen.contains(t) && t != digest@);
                }
            }
            i = i + 1;
        }
        assert(before.take(i as int) =~= before);
        self.pins = kept;
        assert(self@ =~= old(self)@.remove(digest@));
    }
}

proof fn lemma_push_contains(s: Seq<Seq<char>>, x: Seq<char>, t: Seq<char>)
    ensures
        s.push(x).contains(t) <==> s.contains(t) || t == x,
{
    if s.contains(t) {
        let i = choose|i: int| 0 <= i < s.len() && s[i] == t;
        assert(s.push(x)[i] == t);
    }
    if t == x {
        assert(s.push(x)[s.len() as int] == t);
    }
    if s.push(x).contains(t) {
        let i = choose|i: int| 0 <= i < s.push(x).len() && s.push(x)[i] == t;
        if i < s.len() {
            assert(s[i] == t);
        }
    }
}

// ---------- references of the log ----------

/// A record with the objects it refers to.
#[derive(Debug, Clone, PartialEq, Eq)]
pub struct ReferringRecord {
    pub record: LogRecord,
    pub refs: Vec<Digest>,
}

/// The keys of a payload that bear a digest. Nothing else of a payload pins an
/// object, whatever it reads as.
pub open spec fn digest_keys() -> Seq<Seq<char>> {
    Seq::empty().push("$object"@).push("snapshot"@).push("memory_root"@).push(
        "project_memory_root"@,
    ).push("composition"@).push("summary_digest"@)
}

pub open spec fn keyed_digests(payload: JsonView, keys: Seq<Seq<char>>, codec: CodecView) -> Seq<
    Seq<char>,
>
    decreases keys.len(),
{
    if keys.len() == 0 {
        Seq::empty()
    } else {
        keyed_digests(payload, keys.drop_last(), codec) + digests::one(
            event::digest_member(codec, payload, keys.last()),
        )
    }
}

/// The digests that a payload bears.
pub open spec fn payload_digests(payload: JsonView, codec: CodecView) -> Seq<Seq<char>> {
    keyed_digests(payload, digest_keys(), codec)
}

/// What a record refers to.
pub open spec fn record_digests(x: ReferringRecord, codec: CodecView) -> Seq<Seq<char>> {
    value::views(x.refs@) + digests::one(x.record@.snapshot) + payload_digests(x.record@.payload, codec)
}

/// The snapshot manifests that a record names.
pub open spec fn record_manifests(x: ReferringRecord, codec: CodecView) -> Seq<Seq<char>> {
    digests::one(x.record@.snapshot) + digests::one(event::digest_member(codec, x.record@.payload, "snapshot"@))
}

/// The workspace manifest that a record names; the blobs it lists are
/// referred to by nothing else.
pub open spec fn workspace_of(r: LogRecordView, codec: CodecView) -> Option<Seq<char>> {
    if r.kind == "workspace_snapshot"@ || r.kind == "workspace_restore"@ {
        event::digest_member(codec, r.payload, "manifest"@)
    } else {
        None
    }
}

/// What the log refers to, and the manifests whose contents are referred to as
/// well.
#[derive(Debug, Clone, PartialEq, Eq)]
pub struct References {
    pub digests: Vec<Digest>,
    /// Snapshot manifests: their closures count.
    pub manifests: Vec<Digest>,
    /// Workspace manifests: their file blobs count.
    pub workspaces: Vec<Digest>,
}

pub struct ReferencesView {
    pub digests: Seq<Seq<char>>,
    pub manifests: Seq<Seq<char>>,
    pub workspaces: Seq<Seq<char>>,
}

impl View for References {
    type V = ReferencesView;

    open spec fn view(&self) -> ReferencesView {
        ReferencesView {
            digests: value::views(self.digests@),
            manifests: value::views(self.manifests@),
            workspaces: value::views(self.workspaces@),
        }
    }
}

pub open spec fn no_references() -> ReferencesView {
    ReferencesView { digests: Seq::empty(), manifests: Seq::empty(), workspaces: Seq::empty() }
}

/// The references of a log.
pub open spec fn references(log: Seq<ReferringRecord>, codec: CodecView) -> ReferencesView
    decreases log.len(),
{
    if log.len() == 0 {
        no_references()
    } else {
        let rest = references(log.drop_last(), codec);
        let x = log.last();
        ReferencesView {
            digests: rest.digests + record_digests(x, codec),
            manifests: rest.manifests + record_manifests(x, codec),
            workspaces: rest.workspaces + digests::one(workspace_of(x.record@, codec)),
        }
    }
}

fn collect_payload_digests(payload: &Json, codec: &Codec, out: &mut Vec<Digest>)
    ensures
        value::views(final(out)@) == value::views(old(out)@) + payload_digests(payload@, codec@),
{
    let ghost before = value::views(out@);
    let mut keys: Vec<String> = Vec::new();
    keys.push("$object".to_owned());
    keys.push("snapshot".to_owned());
    keys.push("memory_root".to_owned());
    keys.push("project_memory_root".to_owned());
    keys.push("composition".to_owned());
    keys.push("summary_digest".to_owned());
    let ghost all = digest_keys();
    assert(value::views(keys@) =~= all);
    let mut i: usize = 0;
    assert(all.take(0) =~= Seq::empty());
    assert(before + keyed_digests(payload@, all.take(0), codec@) =~= before);
    while i < keys.len()
        invariant
            i <= keys.len(),
            value::views(keys@) == all,
            value::views(out@) == before + keyed_digests(payload@, all.take(i as int), codec@),
        decreases keys.len() - i,
    {
        let ghost so_far = value::views(out@);
        proof {
            assert(all.take(i + 1).last() == keys@[i as int]@);
            assert(all.take(i + 1).drop_last() =~= all.take(i as int));
        }
        let d = codec.digest_in(payload, keys[i].as_str());
        digests::push_opt(out, &d);
        assert(value::views(out@) =~= before + keyed_digests(payload@, all.take(i + 1), codec@));
        i = i + 1;
    }
    assert(all.take(i as int) =~= all);
}

/// Collects the references of a log.
pub fn collect(log: &Vec<ReferringRecord>, codec: &Codec) -> (r: References)
    ensures
        r@ == references(log@, codec@),
{
    let mut digests: Vec<Digest> = Vec::new();
    let mut manifests: Vec<Digest> = Vec::new();
    let mut workspaces: Vec<Digest> = Vec::new();
    let mut i: usize = 0;
    assert(log@.take(0) =~= Seq::empty());
    while i < log.len()
        invariant
            i <= log.len(),
            value::views(digests@) == references(log@.take(i as int), codec@).digests,
            value::views(manifests@) == references(log@.take(i as int), codec@).manifests,
            value::views(workspaces@) == references(log@.take(i as int), codec@).workspaces,
        decreases log.len() - i,
    {
        let ghost d0 = value::views(digests@);
        let ghost m0 = value::views(manifests@);
        let ghost w0 = value::views(workspaces@);
        let x = &log[i];
        proof {
            assert(log@.take(i + 1).last() == *x);
            assert(log@.take(i + 1).drop_last() =~= log@.take(i as int));
        }
        digests::push_all(&mut digests, &x.refs);
        digests::push_opt(&mut digests, &x.record.snapshot);
        digests::push_opt(&mut manifests, &x.record.snapshot);
        collect_payload_digests(&x.record.payload, codec, &mut digests);
        let named = codec.digest_in(&x.record.payload, "snapshot");
        digests::push_opt(&mut manifests, &named);
        let kind = x.record.kind.as_str();
        if text::same_text(kind, "workspace_snapshot") || text::same_text(
            kind,
            "workspace_restore",
        ) {
            let manifest = codec.digest_in(&x.record.payload, "manifest");
            digests::push_opt(&mut workspaces, &manifest);
        }
        proof {
            assert(value::views(digests@) =~= d0 + record_digests(*x, codec@));
            assert(value::views(manifests@) =~= m0 + record_manifests(*x, codec@));
            assert(value::views(workspaces@) =~= w0 + digests::one(workspace_of(x.record@, codec@)));
        }
        i = i + 1;
    }
    assert(log@.take(i as int) =~= log@);
    References { digests, manifests, workspaces }
}

/// The digests of several lists.
pub open spec fn flat(s: Seq<Vec<Digest>>) -> Seq<Seq<char>>
    decreases s.len(),
{
    if s.len() == 0 {
        Seq::empty()
    } else {
        flat(s.drop_last()) + value::views(s.last()@)
    }
}

/// Everything that is referred to.
pub open spec fn reachable(
    refs: ReferencesView,
    roots: Seq<Seq<char>>,
    blobs: Seq<Vec<Digest>>,
    closures: Seq<Vec<Digest>>,
) -> Seq<Seq<char>> {
    refs.digests + flat(blobs) + roots + flat(closures)
}

fn push_lists(out: &mut Vec<Digest>, lists: &Vec<Vec<Digest>>)
    ensures
        value::views(final(out)@) == value::views(old(out)@) + flat(lists@),
{
    let ghost before = value::views(out@);
    let mut i: usize = 0;
    assert(lists@.take(0) =~= Seq::empty());
    assert(before + flat(lists@.take(0)) =~= before);
    while i < lists.len()
        invariant
            i <= lists.len(),
            value::views(out@) == before + flat(lists@.take(i as int)),
        decreases lists.len() - i,
    {
        proof {
            assert(lists@.take(i + 1).last() == lists@[i as int]);
            assert(lists@.take(i + 1).drop_last() =~= lists@.take(i as int));
        }
        digests::push_all(out, &lists[i]);
        assert(value::views(out@) =~= before + flat(lists@.take(i + 1)));
        i = i + 1;
    }
    assert(lists@.take(i as int) =~= lists@);
}

/// The full set of references: those of the log, the blobs of its workspace
/// manifests, the live roots, and the closures of the manifests among them.
/// A manifest that cannot be read has no closure, and stays referred to.
pub fn reference_set(
    refs: &References,
    roots: &Vec<Digest>,
    blobs: &Vec<Vec<Digest>>,
    closures: &Vec<Vec<Digest>>,
) -> (r: Vec<Digest>)
    ensures
        value::views(r@) == reachable(refs@, value::views(roots@), blobs@, closures@),
{
    let mut out = value::copy_vec(&refs.digests);
    push_lists(&mut out, blobs);
    digests::push_all(&mut out, roots);
    push_lists(&mut out, closures);
    out
}

/// The manifests whose closures are to be expanded.
pub fn manifests_to_expand(refs: &References, roots: &Vec<Digest>) -> (r: Vec<Digest>)
    ensures
        value::views(r@) == refs@.manifests + value::views(roots@),
{
    let mut out = value::copy_vec(&refs.manifests);
    digests::push_all(&mut out, roots);
    out
}

/// The record of an explicit collection.
pub open spec fn run_record(report: JsonView) -> EventView {
    event::document(
        "gc.run"@,
        JsonView::Object(json::fields1(json::fv("report"@, report))),
    )
}

pub fn gc_run_event(report: Json) -> (r: Event)
    ensures
        r@ == run_record(report@),
{
    event::document_event(
        "gc.run",
        json::record(json::field(json::no_fields(), "report", report)),
    )
}

// ---------- laws ----------

/// Live roots, and whatever a record refers to, are never collected.
pub proof fn law_live_objects_are_reachable(
    log: Seq<ReferringRecord>,
    codec: CodecView,
    roots: Seq<Seq<char>>,
    blobs: Seq<Vec<Digest>>,
    closures: Seq<Vec<Digest>>,
    i: int,
    d: Seq<char>,
)
    ensures
        roots.contains(d) ==> reachable(references(log, codec), roots, blobs, closures).contains(
            d,
        ),
        0 <= i < log.len() && record_digests(log[i], codec).contains(d) ==> reachable(
            references(log, codec),
            roots,
            blobs,
            closures,
        ).contains(d),
        flat(blobs).contains(d) || flat(closures).contains(d) ==> reachable(
            references(log, codec),
            roots,
            blobs,
            closures,
        ).contains(d),
{
    let refs = references(log, codec);
    let a = refs.digests;
    let b = a + flat(blobs);
    let c = b + roots;
    let all = c + flat(closures);
    if 0 <= i < log.len() && record_digests(log[i], codec).contains(d) {
        lemma_referred(log, codec, i, d);
    }
    digests::lemma_joined(a, flat(blobs), d);
    digests::lemma_joined(b, roots, d);
    digests::lemma_joined(c, flat(closures), d);
}

proof fn lemma_referred(log: Seq<ReferringRecord>, codec: CodecView, i: int, d: Seq<char>)
    requires
        0 <= i < log.len(),
        record_digests(log[i], codec).contains(d),
    ensures
        references(log, codec).digests.contains(d),
    decreases log.len(),
{
    let rest = log.drop_last();
    if i < rest.len() {
        assert(rest[i] == log[i]);
        lemma_referred(rest, codec, i, d);
    }
    digests::lemma_joined(references(rest, codec).digests, record_digests(log.last(), codec), d);
}

/// Free-form content pins nothing: a payload without the digest-bearing keys
/// bears no digest.
pub proof fn law_free_text_pins_nothing(payload: JsonView, codec: CodecView)
    requires
        forall|k: int|
            0 <= k < digest_keys().len() ==> json::member(
                payload,
                #[trigger] digest_keys()[k],
            ) is None,
    ensures
        payload_digests(payload, codec) == Seq::<Seq<char>>::empty(),
{
    lemma_unkeyed(payload, digest_keys(), codec);
}

proof fn lemma_unkeyed(payload: JsonView, keys: Seq<Seq<char>>, codec: CodecView)
    requires
        forall|k: int| 0 <= k < keys.len() ==> json::member(payload, #[trigger] keys[k]) is None,
    ensures
        keyed_digests(payload, keys, codec) == Seq::<Seq<char>>::empty(),
    decreases keys.len(),
{
    if keys.len() > 0 {
        let d = keys.drop_last();
        assert forall|k: int| 0 <= k < d.len() implies json::member(
            payload,
            #[trigger] d[k],
        ) is None by {
            assert(d[k] == keys[k]);
        }
        lemma_unkeyed(payload, d, codec);
        assert(json::member(payload, keys[keys.len() - 1]) is None);
        assert(keyed_digests(payload, keys, codec) =~= Seq::empty());
    }
}

/// The package of a layer that is not active roots nothing, unless something
/// else names it.
pub proof fn law_dropped_layers_are_no_roots(
    layers: Seq<ConfigLayerView>,
    d: Seq<char>,
)
    requires
        forall|i: int| 0 <= i < layers.len() ==> (#[trigger] layers[i]).package != d,
    ensures
        !live_roots_of(None, layers, None, Seq::empty(), Seq::empty()).contains(d),
{
    let all = live_roots_of(None, layers, None, Seq::empty(), Seq::empty());
    let packages = layers.map_values(|l: ConfigLayerView| l.package);
    assert(all =~= packages);
    if all.contains(d) {
        let k = choose|k: int| 0 <= k < packages.len() && packages[k] == d;
        assert(layers[k].package == d);
    }
}

/// The payload bears the digest under one of the keys that bear digests.
pub open spec fn bears(payload: JsonView, codec: CodecView, d: Seq<char>) -> bool {
    ||| event::digest_member(codec, payload, "$object"@) == Some(d)
    ||| event::digest_member(codec, payload, "snapshot"@) == Some(d)
    ||| event::digest_member(codec, payload, "memory_root"@) == Some(d)
    ||| event::digest_member(codec, payload, "project_memory_root"@) == Some(d)
    ||| event::digest_member(codec, payload, "composition"@) == Some(d)
    ||| event::digest_member(codec, payload, "summary_digest"@) == Some(d)
}

proof fn lemma_keyed_step(
    payload: JsonView,
    keys: Seq<Seq<char>>,
    key: Seq<char>,
    codec: CodecView,
    d: Seq<char>,
)
    ensures
        keyed_digests(payload, keys.push(key), codec).contains(d) <==> keyed_digests(
            payload,
            keys,
            codec,
        ).contains(d) || event::digest_member(codec, payload, key) == Some(d),
{
    assert(keys.push(key).drop_last() =~= keys);
    let named = event::digest_member(codec, payload, key);
    digests::lemma_one(named, d);
    digests::lemma_joined(keyed_digests(payload, keys, codec), digests::one(named), d);
}

proof fn lemma_payload_digests(payload: JsonView, codec: CodecView, d: Seq<char>)
    ensures
        payload_digests(payload, codec).contains(d) <==> bears(payload, codec, d),
{
    let k0 = Seq::<Seq<char>>::empty();
    let k1 = k0.push("$object"@);
    let k2 = k1.push("snapshot"@);
    let k3 = k2.push("memory_root"@);
    let k4 = k3.push("project_memory_root"@);
    let k5 = k4.push("composition"@);
    lemma_keyed_step(payload, k0, "$object"@, codec, d);
    lemma_keyed_step(payload, k1, "snapshot"@, codec, d);
    lemma_keyed_step(payload, k2, "memory_root"@, codec, d);
    lemma_keyed_step(payload, k3, "project_memory_root"@, codec, d);
    lemma_keyed_step(payload, k4, "composition"@, codec, d);
    lemma_keyed_step(payload, k5, "summary_digest"@, codec, d);
}

/// A record keeps alive what it refers to, the snapshot it was committed
/// against and what its payload bears; it names the snapshot manifests among
/// these; and a snapshot or a restore of a workspace names its manifest. One
/// record more adds exactly that to the references of a log.
pub proof fn law_every_record_counts(
    log: Seq<ReferringRecord>,
    x: ReferringRecord,
    codec: CodecView,
    d: Seq<char>,
)
    ensures
        references(Seq::empty(), codec).digests.len() == 0,
        references(Seq::empty(), codec).manifests.len() == 0,
        references(Seq::empty(), codec).workspaces.len() == 0,
        references(log.push(x), codec).digests.contains(d) <==> references(
            log,
            codec,
        ).digests.contains(d) || value::views(x.refs@).contains(d) || x.record@.snapshot == Some(d)
            || bears(x.record@.payload, codec, d),
        references(log.push(x), codec).manifests.contains(d) <==> references(
            log,
            codec,
        ).manifests.contains(d) || x.record@.snapshot == Some(d) || event::digest_member(
            codec,
            x.record@.payload,
            "snapshot"@,
        ) == Some(d),
        references(log.push(x), codec).workspaces.contains(d) <==> references(
            log,
            codec,
        ).workspaces.contains(d) || ((x.record@.kind == "workspace_snapshot"@ || x.record@.kind
            == "workspace_restore"@) && event::digest_member(
            codec,
            x.record@.payload,
            "manifest"@,
        ) == Some(d)),
{
    assert(log.push(x).drop_last() =~= log);
    let rest = references(log, codec);
    let r = x.record@;
    let named = event::digest_member(codec, r.payload, "snapshot"@);
    lemma_payload_digests(r.payload, codec, d);
    digests::lemma_one(r.snapshot, d);
    digests::lemma_one(named, d);
    digests::lemma_one(workspace_of(r, codec), d);
    digests::lemma_joined(value::views(x.refs@), digests::one(r.snapshot), d);
    digests::lemma_joined(
        value::views(x.refs@) + digests::one(r.snapshot),
        payload_digests(r.payload, codec),
        d,
    );
    digests::lemma_joined(rest.digests, record_digests(x, codec), d);
    digests::lemma_joined(digests::one(r.snapshot), digests::one(named), d);
    digests::lemma_joined(rest.manifests, record_manifests(x, codec), d);
    digests::lemma_joined(rest.workspaces, digests::one(workspace_of(r, codec)), d);
}

/// Wherever in a log a snapshot or a restore of a workspace stands, its manifest
/// is among the workspaces, and no other digest is.
pub proof fn law_workspace_manifests_are_walked(
    log: Seq<ReferringRecord>,
    codec: CodecView,
    d: Seq<char>,
)
    ensures
        references(log, codec).workspaces.contains(d) <==> exists|i: int|
            0 <= i < log.len() && ((#[trigger] log[i]).record@.kind == "workspace_snapshot"@
                || log[i].record@.kind == "workspace_restore"@) && event::digest_member(
                codec,
                log[i].record@.payload,
                "manifest"@,
            ) == Some(d),
    decreases log.len(),
{
    if log.len() > 0 {
        let rest = log.drop_last();
        assert(rest.push(log.last()) =~= log);
        law_workspace_manifests_are_walked(rest, codec, d);
        law_every_record_counts(rest, log.last(), codec, d);
        if references(rest, codec).workspaces.contains(d) {
            let i = choose|i: int|
                0 <= i < rest.len() && ((#[trigger] rest[i]).record@.kind
                    == "workspace_snapshot"@ || rest[i].record@.kind == "workspace_restore"@)
                    && event::digest_member(codec, rest[i].record@.payload, "manifest"@) == Some(d);
            assert(log[i] == rest[i]);
        } else if references(log, codec).workspaces.contains(d) {
            assert(log[log.len() - 1] == log.last());
        }
        assert forall|i: int|
            0 <= i < log.len() && ((#[trigger] log[i]).record@.kind == "workspace_snapshot"@
                || log[i].record@.kind == "workspace_restore"@) && event::digest_member(
                codec,
                log[i].record@.payload,
                "manifest"@,
            ) == Some(d) implies references(log, codec).workspaces.contains(d) by {
            if i < rest.len() {
                assert(rest[i] == log[i]);
            }
        }
    }
}

/// Wherever in a log a record stands, the snapshot it was committed against and
/// the one that its payload names are among the manifests, and what it refers to
/// or bears is among the digests.
pub proof fn law_records_count_wherever_they_stand(
    log: Seq<ReferringRecord>,
    codec: CodecView,
    i: int,
    d: Seq<char>,
)
    requires
        0 <= i < log.len(),
    ensures
        log[i].record@.snapshot == Some(d) ==> references(log, codec).manifests.contains(d)
            && references(log, codec).digests.contains(d),
        event::digest_member(codec, log[i].record@.payload, "snapshot"@) == Some(d) ==> references(
            log,
            codec,
        ).manifests.contains(d),
        value::views(log[i].refs@).contains(d) || bears(log[i].record@.payload, codec, d)
            ==> references(log, codec).digests.contains(d),
    decreases log.len(),
{
    let rest = log.drop_last();
    assert(rest.push(log.last()) =~= log);
    law_every_record_counts(rest, log.last(), codec, d);
    if i < rest.len() {
        assert(rest[i] == log[i]);
        law_records_count_wherever_they_stand(rest, codec, i, d);
    }
}

proof fn lemma_flat(s: Seq<Vec<Digest>>, d: Seq<char>)
    ensures
        flat(s).contains(d) <==> exists|k: int|
            0 <= k < s.len() && value::views((#[trigger] s[k])@).contains(d),
    decreases s.len(),
{
    if s.len() > 0 {
        let rest = s.drop_last();
        lemma_flat(rest, d);
        digests::lemma_joined(flat(rest), value::views(s.last()@), d);
        if flat(rest).contains(d) {
            let k = choose|k: int|
                0 <= k < rest.len() && value::views((#[trigger] rest[k])@).contains(d);
            assert(s[k] == rest[k]);
        } else if flat(s).contains(d) {
            assert(s[s.len() - 1] == s.last());
        }
        assert forall|k: int|
            0 <= k < s.len() && value::views((#[trigger] s[k])@).contains(d) implies flat(
            s,
        ).contains(d) by {
            if k < rest.len() {
                assert(rest[k] == s[k]);
            }
        }
    }
}

/// What stays is what the log refers to, every live root, every blob of a
/// workspace and every object of a closure, and nothing else.
pub proof fn law_only_referenced_objects_stay(
    refs: ReferencesView,
    roots: Seq<Seq<char>>,
    blobs: Seq<Vec<Digest>>,
    closures: Seq<Vec<Digest>>,
    d: Seq<char>,
)
    ensures
        reachable(refs, roots, blobs, closures).contains(d) <==> refs.digests.contains(d)
            || roots.contains(d) || (exists|k: int|
            0 <= k < blobs.len() && value::views((#[trigger] blobs[k])@).contains(d)) || (exists|
            k: int,
        |
            0 <= k < closures.len() && value::views((#[trigger] closures[k])@).contains(d)),
{
    lemma_flat(blobs, d);
    lemma_flat(closures, d);
    let a = refs.digests;
    let b = a + flat(blobs);
    let c = b + roots;
    digests::lemma_joined(a, flat(blobs), d);
    digests::lemma_joined(b, roots, d);
    digests::lemma_joined(c, flat(closures), d);
}

/// The config choice of a branch names the digest.
pub open spec fn chooses(r: BranchRecordView, d: Seq<char>) -> bool {
    ||| r.config_choice.current == Some(d)
    ||| r.config_choice.historical == Some(d)
    ||| r.config_choice.composition == Some(d)
    ||| r.config_choice.layers.contains(d)
}

proof fn lemma_all_chosen(s: Seq<BranchRecordView>, d: Seq<char>)
    ensures
        all_chosen(s).contains(d) <==> exists|k: int| 0 <= k < s.len() && chooses(#[trigger] s[k], d),
    decreases s.len(),
{
    if s.len() > 0 {
        let rest = s.drop_last();
        let r = s.last();
        lemma_all_chosen(rest, d);
        let a = digests::one(r.config_choice.current);
        let b = digests::one(r.config_choice.historical);
        let c = digests::one(r.config_choice.composition);
        digests::lemma_one(r.config_choice.current, d);
        digests::lemma_one(r.config_choice.historical, d);
        digests::lemma_one(r.config_choice.composition, d);
        digests::lemma_joined(a, b, d);
        digests::lemma_joined(a + b, c, d);
        digests::lemma_joined(a + b + c, r.config_choice.layers, d);
        digests::lemma_joined(all_chosen(rest), chosen(r), d);
        if all_chosen(rest).contains(d) {
            let k = choose|k: int| 0 <= k < rest.len() && chooses(#[trigger] rest[k], d);
            assert(s[k] == rest[k]);
        } else if all_chosen(s).contains(d) {
            assert(s[s.len() - 1] == r);
        }
        assert forall|k: int| 0 <= k < s.len() && chooses(#[trigger] s[k], d) implies all_chosen(
            s,
        ).contains(d) by {
            if k < rest.len() {
                assert(rest[k] == s[k]);
            }
        }
    }
}

/// A digest is a live root if it is the current snapshot, the package of an
/// active layer, a pinned memory root, in the config choice of a branch or the
/// summary of a compaction, and no other digest is one.
pub proof fn law_live_roots_are_exact(
    current: Option<Seq<char>>,
    layers: Seq<ConfigLayerView>,
    pinned: Option<PinnedRootsView>,
    records: Seq<BranchRecordView>,
    compacted: Seq<CompactedRangeView>,
    d: Seq<char>,
)
    ensures
        live_roots_of(current, layers, pinned, records, compacted).contains(d) <==> {
            ||| current == Some(d)
            ||| exists|k: int| 0 <= k < layers.len() && (#[trigger] layers[k]).package == d
            ||| pinned matches Some(p) && (p.lifetime == d || p.project == Some(d))
            ||| exists|k: int| 0 <= k < records.len() && chooses(#[trigger] records[k], d)
            ||| exists|k: int|
                0 <= k < compacted.len() && (#[trigger] compacted[k]).summary_digest == d
        },
{
    let a = digests::one(current);
    let b = layers.map_values(|l: ConfigLayerView| l.package);
    let c = pinned_digests(pinned);
    let e = all_chosen(records);
    let f = compacted.map_values(|c: CompactedRangeView| c.summary_digest);
    digests::lemma_one(current, d);
    lemma_all_chosen(records, d);
    digests::lemma_joined(a, b, d);
    digests::lemma_joined(a + b, c, d);
    digests::lemma_joined(a + b + c, e, d);
    digests::lemma_joined(a + b + c + e, f, d);
    if b.contains(d) {
        let k = choose|k: int| 0 <= k < b.len() && b[k] == d;
        assert(layers[k].package == d);
    }
    if exists|k: int| 0 <= k < layers.len() && (#[trigger] layers[k]).package == d {
        let k = choose|k: int| 0 <= k < layers.len() && (#[trigger] layers[k]).package == d;
        assert(b[k] == d);
    }
    if f.contains(d) {
        let k = choose|k: int| 0 <= k < f.len() && f[k] == d;
        assert(compacted[k].summary_digest == d);
    }
    if exists|k: int| 0 <= k < compacted.len() && (#[trigger] compacted[k]).summary_digest == d {
        let k = choose|k: int|
            0 <= k < compacted.len() && (#[trigger] compacted[k]).summary_digest == d;
        assert(f[k] == d);
    }
    if let Some(p) = pinned {
        let first = Seq::<Seq<char>>::empty().push(p.lifetime);
        digests::lemma_one(Some(p.lifetime), d);
        assert(first =~= digests::one(Some(p.lifetime)));
        digests::lemma_one(p.project, d);
        digests::lemma_joined(first, digests::one(p.project), d);
    }
}

} // verus!
