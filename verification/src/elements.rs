//! Config activation, generation replacement and module state, as the session
//! decides and records them.
use vstd::prelude::*;
use vstd::string::*;
use crate::contribution;
use crate::contribution::{
    Contribution, ContributionKind, ContributionView, KindView, ServiceContribution,
    SettingsContribution, SettingsView,
};
use crate::event;
use crate::event::{Event, EventView};
use crate::hooks::{LiveModule, LiveModuleView};
use crate::ids::{Digest, Id128};
use crate::json;
use crate::json::{Json, JsonView};
use crate::order;
use crate::package::{ModuleOrigin, PackageManifest, PackageManifestView};
use crate::registry::{ContributionRegistry, RegistryView};
use crate::rules;
use crate::rules::Slot;
use crate::services;
use crate::services::{
    EntryView, KeyView, Publication, ServiceError, ServiceErrorView, ServiceKey, ServiceRegistry,
};
use crate::session_error;
use crate::session_error::{SessionError, SessionErrorView};
use crate::settings_gate;
use crate::text;
use crate::value;
use crate::value::Value;

verus! {

broadcast use value::group_views;

// ---------- staging a generation ----------

/// The publications of one generation.
pub open spec fn of_generation(s: Seq<EntryView>, generation: u64) -> Seq<EntryView>
    decreases s.len(),
{
    if s.len() == 0 {
        Seq::empty()
    } else if s.last().provider.generation == generation {
        of_generation(s.drop_last(), generation).push(s.last())
    } else {
        of_generation(s.drop_last(), generation)
    }
}

/// What a generation has published, in the order of the service graph's
/// snapshot.
pub open spec fn published_by(s: Seq<EntryView>, generation: u64) -> Seq<EntryView> {
    of_generation(order::ordered(s, services::entry_order()), generation)
}

/// The publications of one generation.
pub fn generation_entries(registry: &ServiceRegistry, generation: u64) -> (r: Vec<Publication>)
    ensures
        value::views(r@) == published_by(registry@, generation),
{
    let all = registry.snapshot();
    let ghost listed = value::views(all@);
    let mut out: Vec<Publication> = Vec::new();
    let mut i: usize = 0;
    assert(listed.take(0) =~= Seq::empty());
    while i < all.len()
        invariant
            i <= all.len(),
            listed == value::views(all@),
            value::views(out@) == of_generation(listed.take(i as int), generation),
        decreases all.len() - i,
    {
        proof {
            assert(listed.take(i + 1).last() == all@[i as int]@);
            assert(listed.take(i + 1).drop_last() =~= listed.take(i as int));
        }
        if all[i].provider.generation == generation {
            out.push(
                Publication {
                    key: all[i].key.copy(),
                    provider: all[i].provider.copy(),
                    deps: value::copy_vec(&all[i].deps),
                },
            );
        }
        i = i + 1;
    }
    assert(listed.take(i as int) =~= listed);
    out
}

/// The graph after publications were pulled out, one by one, up to the first
/// that cannot be.
pub open spec fn withdrawn(s: Seq<EntryView>, entries: Seq<EntryView>) -> Seq<EntryView>
    decreases entries.len(),
{
    if entries.len() == 0 {
        s
    } else if withdrawal_error(s, entries.drop_last()) is Some {
        withdrawn(s, entries.drop_last())
    } else {
        let rest = withdrawn(s, entries.drop_last());
        let e = entries.last();
        if services::remove_error(rest, e.key, e.provider.module_id) is Some {
            rest
        } else {
            services::without(rest, e.key)
        }
    }
}

/// Why they cannot all be pulled out.
pub open spec fn withdrawal_error(s: Seq<EntryView>, entries: Seq<EntryView>) -> Option<
    ServiceErrorView,
>
    decreases entries.len(),
{
    if entries.len() == 0 {
        None
    } else {
        match withdrawal_error(s, entries.drop_last()) {
            Some(e) => Some(e),
            None => services::remove_error(
                withdrawn(s, entries.drop_last()),
                entries.last().key,
                entries.last().provider.module_id,
            ),
        }
    }
}

proof fn lemma_withdrawal_stops(s: Seq<EntryView>, entries: Seq<EntryView>, n: int)
    requires
        0 <= n <= entries.len(),
        withdrawal_error(s, entries.take(n)) is Some,
    ensures
        withdrawal_error(s, entries) == withdrawal_error(s, entries.take(n)),
        withdrawn(s, entries) == withdrawn(s, entries.take(n)),
    decreases entries.len() - n,
{
    if n == entries.len() {
        assert(entries.take(n) =~= entries);
    } else {
        assert(entries.take(n + 1).drop_last() =~= entries.take(n));
        lemma_withdrawal_stops(s, entries, n + 1);
    }
}

/// Pulls publications back out of the graph, so that a set is validated
/// against the state before it was published.
pub fn withdraw(registry: &mut ContributionRegistry, entries: &Vec<Publication>) -> (r: Result<
    (),
    ServiceError,
>)
    requires
        old(registry).wf(),
    ensures
        final(registry).wf(),
        final(registry)@.entries == old(registry)@.entries,
        final(registry)@.services == withdrawn(
            old(registry)@.services,
            value::views(entries@),
        ),
        value::failure(r) == withdrawal_error(old(registry)@.services, value::views(entries@)),
{
    let ghost start = registry@.services;
    let ghost kept = registry@.entries;
    let ghost all = value::views(entries@);
    let mut i: usize = 0;
    assert(all.take(0) =~= Seq::empty());
    while i < entries.len()
        invariant
            i <= entries.len(),
            all == value::views(entries@),
            start == old(registry)@.services,
            kept == old(registry)@.entries,
            registry.wf(),
            registry@.entries == kept,
            registry@.services == withdrawn(start, all.take(i as int)),
            withdrawal_error(start, all.take(i as int)) is None,
        decreases entries.len() - i,
    {
        proof {
            assert(all.take(i + 1).last() == entries@[i as int]@);
            assert(all.take(i + 1).drop_last() =~= all.take(i as int));
        }
        let graph = registry.services_mut();
        let removed = graph.remove(&entries[i].key, &entries[i].provider.module_id);
        match removed {
            Ok(()) => {},
            Err(e) => {
                proof {
                    lemma_withdrawal_stops(start, all, i + 1);
                }
                return Err(e);
            },
        }
        i = i + 1;
    }
    assert(all.take(i as int) =~= all);
    Ok(())
}

/// A publication as a contribution to a scope.
pub open spec fn as_service(e: EntryView, scope: Seq<Seq<char>>) -> ContributionView {
    ContributionView {
        scope,
        kind: KindView::Service { key: e.key, provider: e.provider, deps: e.deps },
    }
}

/// The same, with the dependencies that the manifest declares.
pub open spec fn as_declared(e: EntryView, m: PackageManifestView) -> ContributionView {
    as_service(EntryView { deps: m.deps, ..e }, m.scope)
}

/// The set that a generation stages: its services, then what else it
/// published, as far as its origin is trusted.
pub open spec fn activation_set(
    entries: Seq<EntryView>,
    m: PackageManifestView,
    others: Seq<ContributionView>,
) -> Seq<ContributionView> {
    entries.map_values(|e: EntryView| as_declared(e, m)) + others.map_values(
        |c: ContributionView| settings_gate::gated(c, settings_gate::is_trusted(m.origin)),
    )
}

/// The set that a replacement stages: the new generation's services keep
/// their own dependencies.
pub open spec fn replacement_set(
    entries: Seq<EntryView>,
    m: PackageManifestView,
    others: Seq<ContributionView>,
) -> Seq<ContributionView> {
    entries.map_values(|e: EntryView| as_service(e, m.scope)) + others.map_values(
        |c: ContributionView| settings_gate::gated(c, settings_gate::is_trusted(m.origin)),
    )
}

/// Publications as contributions: with the manifest's dependencies where
/// `declared`, else with their own.
pub fn service_set(entries: &Vec<Publication>, m: &PackageManifest, declared: bool) -> (r: Vec<
    Contribution,
>)
    ensures
        value::views(r@) == value::views(entries@).map_values(
            |e: EntryView|
                if declared {
                    as_declared(e, m@)
                } else {
                    as_service(e, m@.scope)
                },
        ),
{
    let ghost want = value::views(entries@).map_values(
        |e: EntryView|
            if declared {
                as_declared(e, m@)
            } else {
                as_service(e, m@.scope)
            },
    );
    let mut out: Vec<Contribution> = Vec::new();
    let mut i: usize = 0;
    assert(value::views(out@) =~= want.take(0));
    while i < entries.len()
        invariant
            i <= entries.len(),
            want == value::views(entries@).map_values(
                |e: EntryView|
                    if declared {
                        as_declared(e, m@)
                    } else {
                        as_service(e, m@.scope)
                    },
            ),
            value::views(out@) == want.take(i as int),
        decreases entries.len() - i,
    {
        let deps = if declared {
            value::copy_vec(&m.deps)
        } else {
            value::copy_vec(&entries[i].deps)
        };
        let c = Contribution {
            scope: m.scope.copy(),
            kind: ContributionKind::Service(
                ServiceContribution {
                    key: entries[i].key.copy(),
                    provider: entries[i].provider.copy(),
                    deps,
                },
            ),
        };
        assert(c@ == want[i as int]);
        out.push(c);
        assert(want.take(i + 1) =~= want.take(i as int).push(want[i as int]));
        i = i + 1;
    }
    assert(want.take(i as int) =~= want);
    out
}

/// Stages an activated generation: its publications leave the graph, and with
/// everything else it published they become the set to publish.
pub fn stage_activation(
    registry: &mut ContributionRegistry,
    m: &PackageManifest,
    generation: u64,
    others: Vec<Contribution>,
) -> (r: Result<Vec<Contribution>, ServiceError>)
    requires
        old(registry).wf(),
    ensures
        final(registry).wf(),
        final(registry)@.entries == old(registry)@.entries,
        ({
            let delta = published_by(old(registry)@.services, generation);
            &&& final(registry)@.services == withdrawn(old(registry)@.services, delta)
            &&& value::failure(r) == withdrawal_error(old(registry)@.services, delta)
            &&& r matches Ok(staged) ==> value::views(staged@) == activation_set(
                delta,
                m@,
                value::views(others@),
            )
        }),
{
    let delta = generation_entries(registry.services(), generation);
    match withdraw(registry, &delta) {
        Ok(()) => {},
        Err(e) => return Err(e),
    }
    let mut staged = service_set(&delta, m, true);
    let ghost first = value::views(staged@);
    let mut gated = settings_gate::gate_settings_contributions(m.origin, others);
    let ghost second = value::views(gated@);
    staged.append(&mut gated);
    proof {
        assert(value::views(staged@) =~= first + second);
        assert(first =~= value::views(delta@).map_values(|e: EntryView| as_declared(e, m@)));
    }
    Ok(staged)
}

/// Stages a replacing generation.
pub fn stage_replacement(
    registry: &mut ContributionRegistry,
    m: &PackageManifest,
    generation: u64,
    others: Vec<Contribution>,
) -> (r: Result<Vec<Contribution>, ServiceError>)
    requires
        old(registry).wf(),
    ensures
        final(registry).wf(),
        final(registry)@.entries == old(registry)@.entries,
        ({
            let delta = published_by(old(registry)@.services, generation);
            &&& final(registry)@.services == withdrawn(old(registry)@.services, delta)
            &&& value::failure(r) == withdrawal_error(old(registry)@.services, delta)
            &&& r matches Ok(staged) ==> value::views(staged@) == replacement_set(
                delta,
                m@,
                value::views(others@),
            )
        }),
{
    let delta = generation_entries(registry.services(), generation);
    match withdraw(registry, &delta) {
        Ok(()) => {},
        Err(e) => return Err(e),
    }
    let mut staged = service_set(&delta, m, false);
    let ghost first = value::views(staged@);
    let mut gated = settings_gate::gate_settings_contributions(m.origin, others);
    let ghost second = value::views(gated@);
    staged.append(&mut gated);
    proof {
        assert(value::views(staged@) =~= first + second);
        assert(first =~= value::views(delta@).map_values(|e: EntryView| as_service(e, m@.scope)));
    }
    Ok(staged)
}

// ---------- settings ----------

/// The merged settings of the config layers.
pub open spec fn host_settings(v: RegistryView) -> SettingsView {
    match rules::latest(v.entries, Slot::Settings { scope: Seq::empty() }) {
        Some(c) => match c.kind {
            KindView::Settings(s) => s,
            _ => contribution::no_settings(),
        },
        None => contribution::no_settings(),
    }
}

/// Takes a snapshot of the merged settings; it outlives the generations that
/// contributed them.
pub fn snapshot_settings(registry: &ContributionRegistry) -> (r: SettingsContribution)
    ensures
        r@ == host_settings(registry@),
{
    let root = crate::builtin_config::root_scope();
    match registry.settings_for(&root) {
        Some(s) => SettingsContribution {
            provider: value::copy_opt(&s.provider),
            approval: s.approval,
        },
        None => SettingsContribution { provider: None, approval: None },
    }
}

// ---------- records ----------

/// A module as a delta lists it.
pub open spec fn module_json(module: Seq<char>, generation: u64, package: Seq<char>) -> JsonView {
    JsonView::Object(json::fields3(json::fv("module_id"@, JsonView::Text(module)), json::fv("generation"@, JsonView::Unsigned(generation)), json::fv("package"@, JsonView::Text(package))))
}

/// The same, with the keys it held.
pub open spec fn module_json_with_keys(
    module: Seq<char>,
    generation: u64,
    package: Seq<char>,
    keys: Seq<Seq<char>>,
) -> JsonView {
    JsonView::Object(json::fields4(json::fv("module_id"@, JsonView::Text(module)), json::fv("generation"@, JsonView::Unsigned(generation)), json::fv("package"@, JsonView::Text(package)), json::fv("keys"@, json::text_list(keys))))
}

pub open spec fn delta_json(added: JsonView, removed: Seq<JsonView>) -> JsonView {
    JsonView::Object(json::fields2(json::fv("added"@, JsonView::List(Seq::empty().push(added))), json::fv("removed"@, JsonView::List(removed))))
}

/// The record of a change of the composition.
pub open spec fn composition_record(
    epoch: u64,
    delta: JsonView,
    scope: Seq<char>,
    refs: Seq<Seq<char>>,
) -> EventView {
    event::referring(event::document(
        "composition_changed"@,
        JsonView::Object(json::fields4(json::fv("epoch"@, JsonView::Unsigned(epoch)), json::fv("delta"@, delta), json::fv("scope"@, JsonView::Text(scope)), json::fv("initiator"@, JsonView::Text("config"@)))),
    ), refs)
}

fn module_doc(module: &Id128, generation: u64, package: &Digest) -> (r: Json)
    ensures
        r@ == module_json(module@, generation, package@),
{
    let f = json::field(json::no_fields(), "module_id", json::text_json(module.text.as_str()));
    let f = json::field(f, "generation", Json::Unsigned(generation));
    let f = json::field(f, "package", json::text_json(package.text.as_str()));
    json::record(f)
}

fn composition_event(
    epoch: u64,
    added: Json,
    removed: Vec<Json>,
    scope: &str,
    refs: Vec<Digest>,
) -> (r: Event)
    ensures
        r@ == composition_record(
            epoch,
            delta_json(added@, value::views(removed@)),
            scope@,
            value::views(refs@),
        ),
{
    let mut adds: Vec<Json> = Vec::new();
    adds.push(added);
    let d = json::field(json::no_fields(), "added", json::list(adds));
    let d = json::field(d, "removed", json::list(removed));
    let f = json::field(json::no_fields(), "epoch", Json::Unsigned(epoch));
    let f = json::field(f, "delta", json::record(d));
    let f = json::field(f, "scope", json::text_json(scope));
    let f = json::field(f, "initiator", json::text_json("config"));
    let e = event::document_event("composition_changed", json::record(f));
    Event { refs, ..e }
}

/// The record of an activated config layer.
pub open spec fn activation_record(
    epoch: u64,
    module: Seq<char>,
    generation: u64,
    package: Seq<char>,
    scope: Seq<char>,
    composition: Seq<char>,
) -> EventView {
    composition_record(
        epoch,
        delta_json(module_json(module, generation, package), Seq::empty()),
        scope,
        Seq::empty().push(package).push(composition),
    )
}

/// The event of an activated config layer.
pub fn activation_event(
    epoch: u64,
    m: &PackageManifest,
    generation: u64,
    package: &Digest,
    composition: &Digest,
) -> (r: Event)
    ensures
        r@ == activation_record(
            epoch,
            m@.module_id,
            generation,
            package@,
            services::scope_text(m@.scope),
            composition@,
        ),
{
    let added = module_doc(&m.module_id, generation, package);
    let scope = m.scope.text();
    let mut refs: Vec<Digest> = Vec::new();
    refs.push(package.copy());
    refs.push(composition.copy());
    composition_event(epoch, added, Vec::new(), scope.as_str(), refs)
}

/// The texts of the keys of publications.
pub open spec fn key_texts(entries: Seq<EntryView>) -> Seq<Seq<char>> {
    entries.map_values(|e: EntryView| services::key_text(e.key))
}

fn key_list(entries: &Vec<Publication>) -> (r: Json)
    ensures
        r@ == json::text_list(key_texts(value::views(entries@))),
{
    let ghost docs = key_texts(value::views(entries@)).map_values(
        |t: Seq<char>| JsonView::Text(t),
    );
    let mut out: Vec<Json> = Vec::new();
    let mut i: usize = 0;
    assert(value::views(out@) =~= docs.take(0));
    while i < entries.len()
        invariant
            i <= entries.len(),
            docs == key_texts(value::views(entries@)).map_values(
                |t: Seq<char>| JsonView::Text(t),
            ),
            value::views(out@) == docs.take(i as int),
        decreases entries.len() - i,
    {
        let doc = Json::Text(entries[i].key.text());
        assert(doc@ == docs[i as int]);
        out.push(doc);
        assert(docs.take(i + 1) =~= docs.take(i as int).push(docs[i as int]));
        i = i + 1;
    }
    assert(docs.take(i as int) =~= docs);
    json::list(out)
}

fn module_doc_with_keys(
    module: &Id128,
    generation: u64,
    package: &Digest,
    entries: &Vec<Publication>,
) -> (r: Json)
    ensures
        r@ == module_json_with_keys(
            module@,
            generation,
            package@,
            key_texts(value::views(entries@)),
        ),
{
    let f = json::field(json::no_fields(), "module_id", json::text_json(module.text.as_str()));
    let f = json::field(f, "generation", Json::Unsigned(generation));
    let f = json::field(f, "package", json::text_json(package.text.as_str()));
    let f = json::field(f, "keys", key_list(entries));
    json::record(f)
}

/// The record of a replaced generation: the old one and its keys out, the new
/// one and its keys in.
pub open spec fn replacement_record(
    epoch: u64,
    module: Seq<char>,
    old_module: LiveModuleView,
    old_entries: Seq<EntryView>,
    generation: u64,
    package: Seq<char>,
    entries: Seq<EntryView>,
    composition: Seq<char>,
) -> EventView {
    composition_record(
        epoch,
        delta_json(
            module_json_with_keys(module, generation, package, key_texts(entries)),
            Seq::empty().push(
                module_json_with_keys(
                    module,
                    old_module.generation,
                    old_module.package,
                    key_texts(old_entries),
                ),
            ),
        ),
        "/"@,
        Seq::empty().push(old_module.package).push(package).push(composition),
    )
}

/// The event of a replaced generation.
pub fn replacement_event(
    epoch: u64,
    module: &Id128,
    old_module: &LiveModule,
    old_entries: &Vec<Publication>,
    new_generation: u64,
    new_package: &Digest,
    new_entries: &Vec<Publication>,
    composition: &Digest,
) -> (r: Event)
    ensures
        r@ == replacement_record(
            epoch,
            module@,
            old_module@,
            value::views(old_entries@),
            new_generation,
            new_package@,
            value::views(new_entries@),
            composition@,
        ),
{
    let added = module_doc_with_keys(module, new_generation, new_package, new_entries);
    let mut removed: Vec<Json> = Vec::new();
    removed.push(
        module_doc_with_keys(module, old_module.generation, &old_module.package, old_entries),
    );
    let mut refs: Vec<Digest> = Vec::new();
    refs.push(old_module.package.copy());
    refs.push(new_package.copy());
    refs.push(composition.copy());
    composition_event(epoch, added, removed, "/", refs)
}

/// The live generation of a module; the first listed counts.
pub open spec fn live_of(live: Seq<LiveModuleView>, module: Seq<char>) -> Option<LiveModuleView>
    decreases live.len(),
{
    if live.len() == 0 {
        None
    } else if live[0].module_id == module {
        Some(live[0])
    } else {
        live_of(live.drop_first(), module)
    }
}

/// The live generation of a module; none where it is not activated.
pub fn find_live(live: &Vec<LiveModule>, module: &Id128) -> (r: Option<LiveModule>)
    ensures
        value::opt_view(r) == live_of(value::views(live@), module@),
{
    let ghost all = value::views(live@);
    let mut i: usize = 0;
    assert(all.skip(0) =~= all);
    while i < live.len()
        invariant
            i <= live.len(),
            all == value::views(live@),
            live_of(all, module@) == live_of(all.skip(i as int), module@),
        decreases live.len() - i,
    {
        proof {
            assert(all.skip(i as int)[0] == live@[i as int]@);
            assert(all.skip(i as int).drop_first() =~= all.skip(i + 1));
        }
        if live[i].module_id.same(module) {
            return Some(live[i].copy());
        }
        i = i + 1;
    }
    None
}

/// The record of safe mode.
pub open spec fn safe_mode_record(reason: Seq<char>) -> EventView {
    event::document(
        "safe_mode_activated"@,
        JsonView::Object(json::fields1(json::fv("reason"@, JsonView::Text(reason)))),
    )
}

pub fn safe_mode_event(reason: &str) -> (r: Event)
    ensures
        r@ == safe_mode_record(reason@),
{
    event::document_event(
        "safe_mode_activated",
        json::record(json::field(json::no_fields(), "reason", json::text_json(reason))),
    )
}

// ---------- the stack of layers ----------

/// An active config layer.
#[derive(Debug, Clone, PartialEq, Eq)]
pub struct ConfigLayer {
    /// Its precedence; a higher layer overrides a lower one.
    pub rank: u8,
    pub module_id: Id128,
    pub generation: u64,
    pub package: Digest,
    pub manifest: PackageManifest,
}

pub struct ConfigLayerView {
    pub rank: u8,
    pub module_id: Seq<char>,
    pub generation: u64,
    pub package: Seq<char>,
    pub manifest: PackageManifestView,
}

impl View for ConfigLayer {
    type V = ConfigLayerView;

    open spec fn view(&self) -> ConfigLayerView {
        ConfigLayerView {
            rank: self.rank,
            module_id: self.module_id@,
            generation: self.generation,
            package: self.package@,
            manifest: self.manifest@,
        }
    }
}

impl Value for ConfigLayer {
    fn copy(&self) -> (r: Self) {
        ConfigLayer {
            rank: self.rank,
            module_id: self.module_id.copy(),
            generation: self.generation,
            package: self.package.copy(),
            manifest: self.manifest.copy(),
        }
    }

    fn same(&self, other: &Self) -> (r: bool) {
        self.rank == other.rank
            && self.module_id.same(&other.module_id)
            && self.generation == other.generation
            && self.package.same(&other.package)
            && self.manifest.same(&other.manifest)
    }
}

/// The layers without those of a module.
pub open spec fn without_module(s: Seq<ConfigLayerView>, module: Seq<char>) -> Seq<ConfigLayerView>
    decreases s.len(),
{
    if s.len() == 0 {
        Seq::empty()
    } else if s.last().module_id == module {
        without_module(s.drop_last(), module)
    } else {
        without_module(s.drop_last(), module).push(s.last())
    }
}

/// How many of the lowest layers rank no higher than `rank`.
pub open spec fn standing_below(s: Seq<ConfigLayerView>, rank: u8) -> nat
    decreases s.len(),
{
    if s.len() == 0 || s[0].rank > rank {
        0
    } else {
        1 + standing_below(s.drop_first(), rank)
    }
}

/// The stack with a layer activated: the module's earlier layer gone, the new
/// one above every layer that ranks no higher.
pub open spec fn stacked(s: Seq<ConfigLayerView>, l: ConfigLayerView) -> Seq<ConfigLayerView> {
    let rest = without_module(s, l.module_id);
    rest.insert(standing_below(rest, l.rank) as int, l)
}

/// The stack with the generation of a module replaced; its layer keeps its
/// place.
pub open spec fn restacked(
    s: Seq<ConfigLayerView>,
    module: Seq<char>,
    generation: u64,
    package: Seq<char>,
    manifest: PackageManifestView,
) -> Seq<ConfigLayerView> {
    s.map_values(
        |l: ConfigLayerView|
            if l.module_id == module {
                ConfigLayerView { generation, package, manifest, ..l }
            } else {
                l
            },
    )
}

/// No module has two layers.
pub open spec fn one_layer_each(s: Seq<ConfigLayerView>) -> bool {
    forall|i: int, j: int|
        0 <= i < j < s.len() ==> (#[trigger] s[i]).module_id != (#[trigger] s[j]).module_id
}

/// The layers stand in the order of their ranks.
pub open spec fn ranked(s: Seq<ConfigLayerView>) -> bool {
    forall|i: int, j: int| 0 <= i <= j < s.len() ==> (#[trigger] s[i]).rank <= (#[trigger] s[j]).rank
}

/// Drops the layer of a module.
pub fn drop_layer(stack: &Vec<ConfigLayer>, module: &Id128) -> (r: Vec<ConfigLayer>)
    ensures
        value::views(r@) == without_module(value::views(stack@), module@),
{
    let ghost all = value::views(stack@);
    let mut out: Vec<ConfigLayer> = Vec::new();
    let mut i: usize = 0;
    assert(all.take(0) =~= Seq::empty());
    while i < stack.len()
        invariant
            i <= stack.len(),
            all == value::views(stack@),
            value::views(out@) == without_module(all.take(i as int), module@),
        decreases stack.len() - i,
    {
        proof {
            assert(all.take(i + 1).last() == stack@[i as int]@);
            assert(all.take(i + 1).drop_last() =~= all.take(i as int));
        }
        if !stack[i].module_id.same(module) {
            out.push(stack[i].copy());
        }
        i = i + 1;
    }
    assert(all.take(i as int) =~= all);
    out
}

/// Notes an activated layer.
pub fn stack_layer(stack: &Vec<ConfigLayer>, l: ConfigLayer) -> (r: Vec<ConfigLayer>)
    ensures
        value::views(r@) == stacked(value::views(stack@), l@),
{
    let mut out = drop_layer(stack, &l.module_id);
    let ghost rest = value::views(out@);
    let mut i: usize = 0;
    assert(rest.skip(0) =~= rest);
    while i < out.len() && out[i].rank <= l.rank
        invariant
            i <= out.len(),
            rest == value::views(out@),
            standing_below(rest, l.rank) == i + standing_below(rest.skip(i as int), l.rank),
        decreases out.len() - i,
    {
        proof {
            assert(rest.skip(i as int)[0] == out@[i as int]@);
            assert(rest.skip(i as int).drop_first() =~= rest.skip(i + 1));
        }
        i = i + 1;
    }
    proof {
        if i < out.len() {
            assert(rest.skip(i as int)[0] == out@[i as int]@);
        }
    }
    let ghost added = l@;
    out.insert(i, l);
    assert(value::views(out@) =~= rest.insert(i as int, added));
    out
}

/// Notes a replaced generation, so that the stack stays in step with it.
pub fn restack_layer(
    stack: &Vec<ConfigLayer>,
    module: &Id128,
    generation: u64,
    package: &Digest,
    manifest: &PackageManifest,
) -> (r: Vec<ConfigLayer>)
    ensures
        value::views(r@) == restacked(
            value::views(stack@),
            module@,
            generation,
            package@,
            manifest@,
        ),
{
    let ghost want = restacked(value::views(stack@), module@, generation, package@, manifest@);
    let mut out: Vec<ConfigLayer> = Vec::new();
    let mut i: usize = 0;
    assert(value::views(out@) =~= want.take(0));
    while i < stack.len()
        invariant
            i <= stack.len(),
            want == restacked(
                value::views(stack@),
                module@,
                generation,
                package@,
                manifest@,
            ),
            value::views(out@) == want.take(i as int),
        decreases stack.len() - i,
    {
        let l = if stack[i].module_id.same(module) {
            ConfigLayer {
                rank: stack[i].rank,
                module_id: stack[i].module_id.copy(),
                generation,
                package: package.copy(),
                manifest: manifest.copy(),
            }
        } else {
            stack[i].copy()
        };
        assert(l@ == want[i as int]);
        out.push(l);
        assert(want.take(i + 1) =~= want.take(i as int).push(want[i as int]));
        i = i + 1;
    }
    assert(want.take(i as int) =~= want);
    out
}

/// The layer on top; none for a session without config.
pub open spec fn top(s: Seq<ConfigLayerView>) -> Option<ConfigLayerView> {
    if s.len() == 0 {
        None
    } else {
        Some(s.last())
    }
}

/// The package of the layer on top.
pub fn config_digest(stack: &Vec<ConfigLayer>) -> (r: Option<Digest>)
    ensures
        value::opt_view(r) == (match top(value::views(stack@)) {
            Some(l) => Some(l.package),
            None => None,
        }),
{
    if stack.len() == 0 {
        None
    } else {
        Some(stack[stack.len() - 1].package.copy())
    }
}

/// The manifest of the layer on top.
pub fn config_manifest(stack: &Vec<ConfigLayer>) -> (r: Option<PackageManifest>)
    ensures
        value::opt_view(r) == (match top(value::views(stack@)) {
            Some(l) => Some(l.manifest),
            None => None,
        }),
{
    if stack.len() == 0 {
        None
    } else {
        Some(stack[stack.len() - 1].manifest.copy())
    }
}

pub open spec fn packages_of(s: Seq<ConfigLayerView>) -> Seq<Seq<char>> {
    s.map_values(|l: ConfigLayerView| l.package)
}

/// The packages of the active layers, lowest first.
pub fn config_layer_digests(stack: &Vec<ConfigLayer>) -> (r: Vec<Digest>)
    ensures
        value::views(r@) == packages_of(value::views(stack@)),
{
    let ghost all = packages_of(value::views(stack@));
    let mut out: Vec<Digest> = Vec::new();
    let mut i: usize = 0;
    assert(value::views(out@) =~= all.take(0));
    while i < stack.len()
        invariant
            i <= stack.len(),
            all == packages_of(value::views(stack@)),
            value::views(out@) == all.take(i as int),
        decreases stack.len() - i,
    {
        out.push(stack[i].package.copy());
        assert(all.take(i + 1) =~= all.take(i as int).push(all[i as int]));
        i = i + 1;
    }
    assert(all.take(i as int) =~= all);
    out
}

// ---------- activating the layers ----------

/// Where the activation of the layers stands: what the host is to do next.
#[derive(Debug, Clone, PartialEq, Eq)]
pub enum LayerPhase {
    /// Activate this layer.
    Activate { index: usize },
    /// Deactivate these layers, in this order.
    Drop { modules: Vec<usize>, reason: String },
    /// Activate the built-in layer.
    Fallback { reason: String },
    /// Commit safe mode; without modules where they are disabled.
    Record { reason: String, disable: bool },
    Done,
}

pub enum LayerPhaseView {
    Activate { index: nat },
    Drop { modules: Seq<usize>, reason: Seq<char> },
    Fallback { reason: Seq<char> },
    Record { reason: Seq<char>, disable: bool },
    Done,
}

impl View for LayerPhase {
    type V = LayerPhaseView;

    open spec fn view(&self) -> LayerPhaseView {
        match *self {
            LayerPhase::Activate { index } => LayerPhaseView::Activate { index: index as nat },
            LayerPhase::Drop { modules, reason } => LayerPhaseView::Drop { modules: modules@, reason: reason@ },
            LayerPhase::Fallback { reason } => LayerPhaseView::Fallback { reason: reason@ },
            LayerPhase::Record { reason, disable } => LayerPhaseView::Record { reason: reason@, disable },
            LayerPhase::Done => LayerPhaseView::Done,
        }
    }
}

/// The activation of the layers of a session, lowest first. A layer that
/// fails puts the session in safe mode: the built-in layer alone stays. A
/// built-in layer that fails leaves no modules at all.
pub struct LayerRun {
    origins: Vec<ModuleOrigin>,
    activated: Vec<usize>,
    builtin_active: bool,
    safe_mode: bool,
    phase: LayerPhase,
}

pub struct LayerRunView {
    pub origins: Seq<ModuleOrigin>,
    pub activated: Seq<usize>,
    /// A built-in layer is active.
    pub builtin_active: bool,
    /// Safe mode was recorded.
    pub safe_mode: bool,
    pub phase: LayerPhaseView,
}

impl View for LayerRun {
    type V = LayerRunView;

    closed spec fn view(&self) -> LayerRunView {
        LayerRunView {
            origins: self.origins@,
            activated: self.activated@,
            builtin_active: self.builtin_active,
            safe_mode: self.safe_mode,
            phase: self.phase@,
        }
    }
}

/// What holds of a run in every phase.
pub open spec fn run_ok(r: LayerRunView) -> bool {
    &&& r.phase matches LayerPhaseView::Activate { index } ==> index < r.origins.len()
    &&& forall|i: int|
        0 <= i < r.activated.len() ==> (#[trigger] r.activated[i]) < r.origins.len()
    &&& r.phase matches LayerPhaseView::Drop { modules, .. } ==> modules == foreign(
        r.origins,
        r.activated,
    )
}

pub open spec fn activating(origins: Seq<ModuleOrigin>, index: nat) -> LayerPhaseView {
    if index < origins.len() {
        LayerPhaseView::Activate { index }
    } else {
        LayerPhaseView::Done
    }
}

/// The activated layers that are not built in, the last first.
pub open spec fn foreign(origins: Seq<ModuleOrigin>, activated: Seq<usize>) -> Seq<usize>
    decreases activated.len(),
{
    if activated.len() == 0 {
        Seq::empty()
    } else {
        let rest = foreign(origins, activated.drop_last());
        if origins[activated.last() as int] == ModuleOrigin::Builtin {
            rest
        } else {
            seq![activated.last()] + rest
        }
    }
}

pub open spec fn after_layer(r: LayerRunView, result: Result<(), String>) -> LayerRunView {
    match r.phase {
        LayerPhaseView::Activate { index } => {
            let builtin = r.origins[index as int] == ModuleOrigin::Builtin;
            match result {
                Ok(()) => LayerRunView {
                    activated: r.activated.push(index as usize),
                    builtin_active: r.builtin_active || builtin,
                    phase: activating(r.origins, index + 1),
                    ..r
                },
                Err(e) => if builtin {
                    LayerRunView {
                        phase: LayerPhaseView::Record { reason: e@, disable: true },
                        ..r
                    }
                } else {
                    LayerRunView {
                        phase: LayerPhaseView::Drop {
                            modules: foreign(r.origins, r.activated),
                            reason: e@,
                        },
                        ..r
                    }
                },
            }
        },
        _ => r,
    }
}

pub open spec fn after_drop(r: LayerRunView) -> LayerRunView {
    match r.phase {
        LayerPhaseView::Drop { reason, .. } => LayerRunView {
            phase: if r.builtin_active {
                LayerPhaseView::Record { reason, disable: false }
            } else {
                LayerPhaseView::Fallback { reason }
            },
            ..r
        },
        _ => r,
    }
}

pub open spec fn after_fallback(r: LayerRunView, active: bool) -> LayerRunView {
    match r.phase {
        LayerPhaseView::Fallback { reason } => LayerRunView {
            builtin_active: active,
            phase: LayerPhaseView::Record { reason, disable: !active },
            ..r
        },
        _ => r,
    }
}

fn foreign_layers(origins: &Vec<ModuleOrigin>, activated: &Vec<usize>) -> (r: Vec<usize>)
    requires
        forall|i: int|
            0 <= i < activated.len() ==> (#[trigger] activated@[i]) < origins.len(),
    ensures
        r@ == foreign(origins@, activated@),
{
    let mut out: Vec<usize> = Vec::new();
    let mut i: usize = activated.len();
    assert(activated@.take(i as int) =~= activated@);
    assert(out@ + foreign(origins@, activated@.take(i as int)) =~= foreign(
        origins@,
        activated@,
    ));
    while i > 0
        invariant
            i <= activated.len(),
            forall|k: int|
                0 <= k < activated.len() ==> (#[trigger] activated@[k]) < origins.len(),
            foreign(origins@, activated@) == out@ + foreign(
                origins@,
                activated@.take(i as int),
            ),
        decreases i,
    {
        i = i - 1;
        let ghost before = out@;
        proof {
            assert(activated@.take(i + 1).last() == activated@[i as int]);
            assert(activated@.take(i + 1).drop_last() =~= activated@.take(i as int));
        }
        let k: usize = activated[i];
        let builtin = match origins[k] {
            ModuleOrigin::Builtin => true,
            _ => false,
        };
        if !builtin {
            out.push(k);
            assert(before + (seq![k] + foreign(origins@, activated@.take(i as int))) =~= out@
                + foreign(origins@, activated@.take(i as int)));
        }
    }
    assert(activated@.take(0) =~= Seq::empty());
    assert(out@ + Seq::<usize>::empty() =~= out@);
    out
}

impl LayerRun {
    /// Starts with layers of these origins.
    pub fn start(origins: Vec<ModuleOrigin>) -> (r: LayerRun)
        ensures
            r@ == (LayerRunView {
                origins: origins@,
                activated: Seq::empty(),
                builtin_active: false,
                safe_mode: false,
                phase: activating(origins@, 0),
            }),
            run_ok(r@),
    {
        let phase = if origins.len() > 0 {
            LayerPhase::Activate { index: 0 }
        } else {
            LayerPhase::Done
        };
        LayerRun {
            origins,
            activated: Vec::new(),
            builtin_active: false,
            safe_mode: false,
            phase,
        }
    }

    /// What the host is to do next.
    pub fn phase(&self) -> (r: &LayerPhase)
        ensures
            r@ == self@.phase,
    {
        &self.phase
    }

    /// Whether safe mode was recorded.
    pub fn safe_mode_committed(&self) -> (r: bool)
        ensures
            r == self@.safe_mode,
    {
        self.safe_mode
    }

    /// A layer was activated, or failed.
    pub fn layer_answered(&mut self, result: Result<(), String>)
        requires
            run_ok(old(self)@),
            old(self)@.phase is Activate,
        ensures
            final(self)@ == after_layer(old(self)@, result),
            run_ok(final(self)@),
    {
        let ghost before = self@;
        let index: usize = match &self.phase {
            LayerPhase::Activate { index } => *index,
            _ => return ,
        };
        let builtin = match self.origins[index] {
            ModuleOrigin::Builtin => true,
            _ => false,
        };
        match result {
            Ok(()) => {
                self.activated.push(index);
                self.builtin_active = self.builtin_active || builtin;
                if index < self.origins.len() - 1 {
                    self.phase = LayerPhase::Activate { index: index + 1 };
                } else {
                    self.phase = LayerPhase::Done;
                }
                proof {
                    let r = self@;
                    assert forall|i: int| 0 <= i < r.activated.len() implies (
                    #[trigger] r.activated[i]) < r.origins.len() by {
                        if i < before.activated.len() {
                            assert(r.activated[i] == before.activated[i]);
                        }
                    }
                }
            },
            Err(e) => {
                if builtin {
                    self.phase = LayerPhase::Record { reason: e, disable: true };
                } else {
                    let modules = foreign_layers(&self.origins, &self.activated);
                    self.phase = LayerPhase::Drop { modules, reason: e };
                }
            },
        }
    }

    /// The foreign layers were deactivated.
    pub fn layers_dropped(&mut self)
        requires
            run_ok(old(self)@),
            old(self)@.phase is Drop,
        ensures
            final(self)@ == after_drop(old(self)@),
            run_ok(final(self)@),
    {
        let reason = match &self.phase {
            LayerPhase::Drop { reason, .. } => reason.clone(),
            _ => return ,
        };
        if self.builtin_active {
            self.phase = LayerPhase::Record { reason, disable: false };
        } else {
            self.phase = LayerPhase::Fallback { reason };
        }
    }

    /// The built-in layer was activated, or failed too.
    pub fn fallback_answered(&mut self, active: bool)
        requires
            run_ok(old(self)@),
            old(self)@.phase is Fallback,
        ensures
            final(self)@ == after_fallback(old(self)@, active),
            run_ok(final(self)@),
    {
        let reason = match &self.phase {
            LayerPhase::Fallback { reason } => reason.clone(),
            _ => return ,
        };
        self.builtin_active = active;
        self.phase = LayerPhase::Record { reason, disable: !active };
    }

    /// Safe mode was committed.
    pub fn safe_mode_recorded(&mut self)
        requires
            run_ok(old(self)@),
            old(self)@.phase is Record,
        ensures
            final(self)@ == (LayerRunView {
                safe_mode: true,
                phase: LayerPhaseView::Done,
                ..old(self)@
            }),
            run_ok(final(self)@),
    {
        self.safe_mode = true;
        self.phase = LayerPhase::Done;
    }
}

// ---------- module state and effects ----------

/// Why the state of a module cannot be reset: only a tracked module that
/// binds a state key has one.
pub open spec fn reset_key(
    known: Option<PackageManifestView>,
    module: Seq<char>,
    enabled: bool,
) -> Result<Seq<char>, SessionErrorView> {
    if known is None || known->0.module_id != module {
        Err(session_error::invalid("no tracked module "@ + module + " to reset"@))
    } else if known->0.state_key is None {
        Err(
            session_error::invalid(
                "module "@ + module + " binds no state_key (R-07/C-F1)"@,
            ),
        )
    } else if !enabled {
        Err(SessionErrorView::ModulesDisabled)
    } else {
        Ok(known->0.state_key->0)
    }
}

/// The state key to reset, or why there is none.
pub fn reset_module_state(known: &Option<PackageManifest>, module: &Id128, enabled: bool) -> (r:
    Result<String, SessionError>)
    ensures
        match r {
            Ok(k) => reset_key(value::opt_view(*known), module@, enabled) == Ok::<
                Seq<char>,
                SessionErrorView,
            >(k@),
            Err(e) => reset_key(value::opt_view(*known), module@, enabled) == Err::<
                Seq<char>,
                SessionErrorView,
            >(e@),
        },
{
    let key = match known {
        Some(m) => if m.module_id.same(module) {
            value::copy_opt(&m.state_key)
        } else {
            return Err(
                SessionError::InvalidInput(
                    text::cat3("no tracked module ", module.text.as_str(), " to reset"),
                ),
            );
        },
        None => return Err(
            SessionError::InvalidInput(
                text::cat3("no tracked module ", module.text.as_str(), " to reset"),
            ),
        ),
    };
    match key {
        None => Err(
            SessionError::InvalidInput(
                text::cat3(
                    "module ",
                    module.text.as_str(),
                    " binds no state_key (R-07/C-F1)",
                ),
            ),
        ),
        Some(k) => if enabled {
            Ok(k)
        } else {
            Err(SessionError::ModulesDisabled)
        },
    }
}

/// The record of a fresh state head.
pub open spec fn reinitialized(module: Seq<char>, key: Seq<char>, previous: Option<Seq<char>>) -> EventView {
    event::document(
        "state_reinitialized"@,
        JsonView::Object(json::fields3(json::fv("module_id"@, JsonView::Text(module)), json::fv("state_key"@, JsonView::Text(key)), json::fv("previous_head"@, json::text_or_null(previous)))),
    )
}

pub fn reinitialized_event(module: &Id128, key: &str, previous: &Option<Digest>) -> (r: Event)
    ensures
        r@ == reinitialized(module@, key@, value::opt_view(*previous)),
{
    let f = json::field(json::no_fields(), "module_id", json::text_json(module.text.as_str()));
    let f = json::field(f, "state_key", json::text_json(key));
    let f = json::field(f, "previous_head", json::digest_or_null(previous));
    event::document_event("state_reinitialized", json::record(f))
}

/// What an effect is dispatched with, or why it is not: without modules, from
/// a generation that is no longer current, or with arguments that are no
/// document.
pub open spec fn effect_request(
    enabled: bool,
    current: bool,
    generation: u64,
    key: KeyView,
    args: Seq<char>,
    fault: Seq<char>,
) -> Result<Seq<char>, SessionErrorView> {
    if !enabled {
        Err(SessionErrorView::ModulesDisabled)
    } else if !current {
        Err(SessionErrorView::StaleGeneration { generation })
    } else {
        match json::parsed(args) {
            Some(v) => Ok(
                json::json_text(
                    json::normal(
                        JsonView::Object(json::fields2(json::fv("key"@, contribution::key_json(key)), json::fv("args"@, v))),
                    ),
                ),
            ),
            None => Err(SessionErrorView::Effect("args are not JSON: "@ + fault)),
        }
    }
}

/// The payload of an effect. `current` says whether the caller's generation is
/// current, and `fault` what the host's reader says of arguments that are no
/// document.
pub fn effect_dispatch(
    enabled: bool,
    current: bool,
    generation: u64,
    key: &ServiceKey,
    args: &str,
    fault: &str,
) -> (r: Result<String, SessionError>)
    ensures
        match r {
            Ok(t) => effect_request(enabled, current, generation, key@, args@, fault@) == Ok::<
                Seq<char>,
                SessionErrorView,
            >(t@),
            Err(e) => effect_request(enabled, current, generation, key@, args@, fault@) == Err::<
                Seq<char>,
                SessionErrorView,
            >(e@),
        },
{
    if !enabled {
        return Err(SessionError::ModulesDisabled);
    }
    if !current {
        return Err(SessionError::StaleGeneration { generation });
    }
    match json::read(args) {
        Some(v) => {
            let f = json::field(json::no_fields(), "key", contribution::encode_key(key));
            let f = json::field(f, "args", v);
            Ok(json::render(&json::normalize(&json::record(f))))
        },
        None => Err(SessionError::Effect(text::cat2("args are not JSON: ", fault))),
    }
}

// ---------- laws ----------

/// Safe mode drops every layer that is not built in: those to deactivate are
/// exactly the activated ones of other origins.
pub proof fn law_safe_mode_drops_foreign_layers(
    origins: Seq<ModuleOrigin>,
    activated: Seq<usize>,
    k: usize,
)
    ensures
        foreign(origins, activated).contains(k) <==> activated.contains(k) && origins[k as int]
            != ModuleOrigin::Builtin,
    decreases activated.len(),
{
    let all = foreign(origins, activated);
    if activated.len() > 0 {
        let a = activated.drop_last();
        let rest = foreign(origins, a);
        let x = activated.last();
        law_safe_mode_drops_foreign_layers(origins, a, k);
        if all.contains(k) {
            let i = choose|i: int| 0 <= i < all.len() && all[i] == k;
            if origins[x as int] != ModuleOrigin::Builtin && i == 0 {
                assert(activated[activated.len() - 1] == k);
            } else {
                let j = if origins[x as int] == ModuleOrigin::Builtin {
                    i
                } else {
                    i - 1
                };
                assert(rest[j] == k);
                assert(rest.contains(k));
                let m = choose|m: int| 0 <= m < a.len() && a[m] == k;
                assert(activated[m] == k);
            }
        }
        if activated.contains(k) && origins[k as int] != ModuleOrigin::Builtin {
            let m = choose|m: int| 0 <= m < activated.len() && activated[m] == k;
            if m < a.len() {
                assert(a[m] == k);
                assert(a.contains(k));
                let j = choose|j: int| 0 <= j < rest.len() && rest[j] == k;
                if origins[x as int] == ModuleOrigin::Builtin {
                    assert(all[j] == k);
                } else {
                    assert(all[j + 1] == k);
                }
            } else {
                assert(all[0] == k);
            }
        }
    }
}

/// A failing layer that is not built in leaves the modules enabled, as long
/// as a built-in layer is active or can be activated.
pub proof fn law_foreign_failures_keep_modules(r: LayerRunView, e: String, fallback: bool)
    requires
        r.phase matches LayerPhaseView::Activate { index } && index < r.origins.len()
            && r.origins[index as int] != ModuleOrigin::Builtin,
    ensures
        ({
            let dropped = after_drop(after_layer(r, Err(e)));
            let end = if r.builtin_active {
                dropped
            } else {
                after_fallback(dropped, fallback)
            };
            end.phase matches LayerPhaseView::Record { reason, disable } && reason == e@ && disable
                == !(r.builtin_active || fallback)
        }),
{
}

/// The stack stays in the order of the ranks, whatever is activated.
pub proof fn law_layers_stay_ranked(s: Seq<ConfigLayerView>, l: ConfigLayerView)
    requires
        ranked(s),
    ensures
        ranked(stacked(s, l)),
        ranked(without_module(s, l.module_id)),
{
    lemma_without_module(s, l.module_id);
    let rest = without_module(s, l.module_id);
    lemma_standing(rest, l.rank);
    let n = standing_below(rest, l.rank) as int;
    let r = rest.insert(n, l);
    assert forall|i: int, j: int| 0 <= i <= j < r.len() implies (#[trigger] r[i]).rank <= (
    #[trigger] r[j]).rank by {
        let a = if i < n {
            i
        } else {
            i - 1
        };
        let b = if j < n {
            j
        } else {
            j - 1
        };
        if i != n {
            assert(r[i] == rest[a]);
        }
        if j != n {
            assert(r[j] == rest[b]);
        }
        if j == n && i < n {
            assert(rest[i].rank <= l.rank);
        }
        if i == n && j > n {
            assert(rest[n].rank > l.rank);
            assert(rest[n].rank <= rest[b].rank);
        }
    }
}

proof fn lemma_without_module(s: Seq<ConfigLayerView>, module: Seq<char>)
    requires
        ranked(s),
    ensures
        ranked(without_module(s, module)),
        forall|i: int|
            0 <= i < without_module(s, module).len() ==> s.contains(
                #[trigger] without_module(s, module)[i],
            ),
    decreases s.len(),
{
    if s.len() > 0 {
        let d = s.drop_last();
        assert forall|i: int, j: int| 0 <= i <= j < d.len() implies (#[trigger] d[i]).rank <= (
        #[trigger] d[j]).rank by {
            assert(d[i] == s[i] && d[j] == s[j]);
        }
        lemma_without_module(d, module);
        let rest = without_module(d, module);
        let r = without_module(s, module);
        assert forall|i: int| 0 <= i < r.len() implies s.contains(#[trigger] r[i]) by {
            if i < rest.len() {
                assert(r[i] == rest[i]);
                let k = choose|k: int| 0 <= k < d.len() && d[k] == rest[i];
                assert(s[k] == r[i]);
            } else {
                assert(s[s.len() - 1] == r[i]);
            }
        }
        assert forall|i: int, j: int| 0 <= i <= j < r.len() implies (#[trigger] r[i]).rank <= (
        #[trigger] r[j]).rank by {
            if j < rest.len() {
                assert(r[i] == rest[i] && r[j] == rest[j]);
            } else if i < rest.len() {
                assert(r[i] == rest[i]);
                let k = choose|k: int| 0 <= k < d.len() && d[k] == rest[i];
                assert(s[k] == r[i]);
                assert(s[k].rank <= s[s.len() - 1].rank);
            }
        }
    }
}

proof fn lemma_standing(s: Seq<ConfigLayerView>, rank: u8)
    ensures
        standing_below(s, rank) <= s.len(),
        forall|i: int| 0 <= i < standing_below(s, rank) ==> (#[trigger] s[i]).rank <= rank,
        standing_below(s, rank) < s.len() ==> s[standing_below(s, rank) as int].rank > rank,
    decreases s.len(),
{
    if s.len() > 0 && s[0].rank <= rank {
        let r = s.drop_first();
        lemma_standing(r, rank);
        let n = standing_below(r, rank);
        assert forall|i: int| 0 <= i < n + 1 implies (#[trigger] s[i]).rank <= rank by {
            if i > 0 {
                assert(s[i] == r[i - 1]);
            }
        }
        if n < r.len() {
            assert(s[n as int + 1] == r[n as int]);
        }
    }
}

/// A layer that ranks no lower than any other goes on top.
pub proof fn lemma_layer_on_top(s: Seq<ConfigLayerView>, l: ConfigLayerView)
    requires
        forall|i: int|
            0 <= i < s.len() ==> (#[trigger] s[i]).rank <= l.rank && s[i].module_id
                != l.module_id,
    ensures
        stacked(s, l) == s.push(l),
{
    lemma_nothing_dropped(s, l.module_id);
    lemma_standing(s, l.rank);
    let n = standing_below(s, l.rank) as int;
    if n < s.len() {
        assert(s[n].rank <= l.rank);
    }
    assert(s.insert(n, l) =~= s.push(l));
}

proof fn lemma_nothing_dropped(s: Seq<ConfigLayerView>, module: Seq<char>)
    requires
        forall|i: int| 0 <= i < s.len() ==> (#[trigger] s[i]).module_id != module,
    ensures
        without_module(s, module) == s,
    decreases s.len(),
{
    if s.len() > 0 {
        let d = s.drop_last();
        assert forall|i: int| 0 <= i < d.len() implies (#[trigger] d[i]).module_id != module by {
            assert(d[i] == s[i]);
        }
        lemma_nothing_dropped(d, module);
        assert(s.last() == s[s.len() - 1]);
        assert(d.push(s.last()) =~= s);
    } else {
        assert(s =~= Seq::empty());
    }
}

proof fn lemma_one_layer_less(s: Seq<ConfigLayerView>, module: Seq<char>)
    requires
        one_layer_each(s),
    ensures
        one_layer_each(without_module(s, module)),
        forall|i: int|
            0 <= i < without_module(s, module).len() ==> (#[trigger] without_module(
                s,
                module,
            )[i]).module_id != module && s.contains(without_module(s, module)[i]),
    decreases s.len(),
{
    if s.len() > 0 {
        let d = s.drop_last();
        assert forall|i: int, j: int| 0 <= i < j < d.len() implies (#[trigger] d[i]).module_id != (
        #[trigger] d[j]).module_id by {
            assert(d[i] == s[i] && d[j] == s[j]);
        }
        lemma_one_layer_less(d, module);
        let rest = without_module(d, module);
        let r = without_module(s, module);
        assert forall|i: int| 0 <= i < r.len() implies (#[trigger] r[i]).module_id != module
            && s.contains(r[i]) by {
            if i < rest.len() {
                assert(r[i] == rest[i]);
                let k = choose|k: int| 0 <= k < d.len() && d[k] == rest[i];
                assert(s[k] == r[i]);
            } else {
                assert(s[s.len() - 1] == r[i]);
            }
        }
        assert forall|i: int, j: int| 0 <= i < j < r.len() implies (#[trigger] r[i]).module_id != (
        #[trigger] r[j]).module_id by {
            assert(r[i] == rest[i]);
            if j < rest.len() {
                assert(r[j] == rest[j]);
            } else {
                let k = choose|k: int| 0 <= k < d.len() && d[k] == rest[i];
                assert(s[k] == r[i] && s[s.len() - 1] == r[j]);
            }
        }
    }
}

/// A module never has two layers, whatever is activated, replaced or dropped.
pub proof fn law_a_module_has_one_layer(
    s: Seq<ConfigLayerView>,
    l: ConfigLayerView,
    module: Seq<char>,
    generation: u64,
    package: Seq<char>,
    manifest: PackageManifestView,
)
    requires
        one_layer_each(s),
    ensures
        one_layer_each(stacked(s, l)),
        one_layer_each(restacked(s, module, generation, package, manifest)),
        one_layer_each(without_module(s, module)),
{
    lemma_one_layer_less(s, l.module_id);
    lemma_one_layer_less(s, module);
    let rest = without_module(s, l.module_id);
    lemma_standing(rest, l.rank);
    let n = standing_below(rest, l.rank) as int;
    let r = rest.insert(n, l);
    assert forall|i: int, j: int| 0 <= i < j < r.len() implies (#[trigger] r[i]).module_id != (
    #[trigger] r[j]).module_id by {
        if i != n {
            assert(r[i] == rest[if i < n {
                i
            } else {
                i - 1
            }]);
        }
        if j != n {
            assert(r[j] == rest[if j < n {
                j
            } else {
                j - 1
            }]);
        }
    }
}

/// Replacing a generation moves no layer.
pub proof fn law_replacement_keeps_the_order(
    s: Seq<ConfigLayerView>,
    module: Seq<char>,
    generation: u64,
    package: Seq<char>,
    manifest: PackageManifestView,
)
    ensures
        restacked(s, module, generation, package, manifest).len() == s.len(),
        ranked(s) ==> ranked(restacked(s, module, generation, package, manifest)),
{
}

/// What was pulled out of the graph is gone from it, and nothing else is.
pub proof fn law_staging_only_takes_its_own(s: Seq<EntryView>, entries: Seq<EntryView>, e: EntryView)
    requires
        services::unique_keys(s),
        withdrawal_error(s, entries) is None,
    ensures
        services::unique_keys(withdrawn(s, entries)),
        withdrawn(s, entries).contains(e) <==> s.contains(e) && forall|i: int|
            0 <= i < entries.len() ==> (#[trigger] entries[i]).key != e.key,
    decreases entries.len(),
{
    if entries.len() > 0 {
        let rest = entries.drop_last();
        let before = withdrawn(s, rest);
        let gone = entries.last();
        law_staging_only_takes_its_own(s, rest, e);
        let after = withdrawn(s, entries);
        assert(after == services::without(before, gone.key));
        let p = services::place_of(before, gone.key);
        assert(services::holds(before, gone.key));
        assert(before[p].key == gone.key);
        assert(after =~= before.remove(p));
        assert forall|i: int, j: int| 0 <= i < j < after.len() implies (#[trigger] after[i]).key
            != (#[trigger] after[j]).key by {
            let a = if i < p {
                i
            } else {
                i + 1
            };
            let b = if j < p {
                j
            } else {
                j + 1
            };
            assert(after[i] == before[a] && after[j] == before[b]);
        }
        if after.contains(e) {
            let i = choose|i: int| 0 <= i < after.len() && after[i] == e;
            let a = if i < p {
                i
            } else {
                i + 1
            };
            assert(before[a] == e);
            assert(before.contains(e));
            assert(e.key != gone.key);
            assert forall|k: int| 0 <= k < entries.len() implies (#[trigger] entries[k]).key
                != e.key by {
                if k < rest.len() {
                    assert(rest[k] == entries[k]);
                }
            }
        }
        if s.contains(e) && (forall|k: int|
            0 <= k < entries.len() ==> (#[trigger] entries[k]).key != e.key) {
            assert forall|k: int| 0 <= k < rest.len() implies (#[trigger] rest[k]).key != e.key by {
                assert(rest[k] == entries[k]);
            }
            assert(before.contains(e));
            let a = choose|a: int| 0 <= a < before.len() && before[a] == e;
            assert(entries[entries.len() - 1].key != e.key);
            assert(a != p);
            let i = if a < p {
                a
            } else {
                a - 1
            };
            assert(after[i] == e);
        }
    }
}

/// A generation has published exactly what it provides, each once and in the
/// order of the graph.
pub proof fn law_publications_are_their_generation(s: Seq<EntryView>, e: EntryView, generation: u64)
    ensures
        of_generation(Seq::empty(), generation) == Seq::<EntryView>::empty(),
        e.provider.generation == generation ==> of_generation(s.push(e), generation)
            == of_generation(s, generation).push(e),
        e.provider.generation != generation ==> of_generation(s.push(e), generation)
            == of_generation(s, generation),
{
    assert(s.push(e).drop_last() =~= s);
}

/// What is staged is what was published: every service under the manifest's
/// scope, with the declared dependencies on an activation and its own on a
/// replacement, and after them everything else, in order.
pub proof fn law_staged_sets_hold_what_was_published(
    entries: Seq<EntryView>,
    m: PackageManifestView,
    others: Seq<ContributionView>,
    i: int,
    j: int,
)
    requires
        0 <= i < entries.len(),
        0 <= j < others.len(),
    ensures
        ({
            let a = activation_set(entries, m, others);
            let b = replacement_set(entries, m, others);
            let n = entries.len() as int;
            &&& a.len() == n + others.len()
            &&& b.len() == n + others.len()
            &&& a[i].scope == m.scope && a[i].kind is Service && a[i].kind->Service_key
                == entries[i].key && a[i].kind->Service_provider == entries[i].provider
                && a[i].kind->Service_deps == m.deps
            &&& b[i].scope == m.scope && b[i].kind is Service && b[i].kind->Service_key
                == entries[i].key && b[i].kind->Service_provider == entries[i].provider
                && b[i].kind->Service_deps == entries[i].deps
            &&& a[n + j].scope == others[j].scope && b[n + j].scope == others[j].scope
            &&& !(others[j].kind is Settings) ==> a[n + j] == others[j] && b[n + j] == others[j]
            &&& (others[j].kind is Settings && (m.origin == ModuleOrigin::Builtin || m.origin
                == ModuleOrigin::UserConfig)) ==> a[n + j] == settings_gate::gated(others[j], true)
                && b[n + j] == settings_gate::gated(others[j], true)
            &&& (others[j].kind is Settings && m.origin != ModuleOrigin::Builtin && m.origin
                != ModuleOrigin::UserConfig) ==> a[n + j] == settings_gate::gated(others[j], false)
                && b[n + j] == settings_gate::gated(others[j], false)
        }),
{
}

/// The host's settings are those that stand in the root scope; without any,
/// nothing is set.
pub proof fn law_host_settings_are_the_root_scopes(v: RegistryView)
    ensures
        ({
            let found = rules::latest(v.entries, Slot::Settings { scope: Seq::empty() });
            &&& (found is Some && found->0.kind is Settings) ==> host_settings(v)
                == found->0.kind->Settings_0
            &&& found is None ==> host_settings(v).provider is None && host_settings(
                v,
            ).approval is None
        }),
{
}

/// A module's live generation is the first that is listed under its identity.
pub proof fn law_live_modules_are_found(
    live: Seq<LiveModuleView>,
    l: LiveModuleView,
    module: Seq<char>,
)
    ensures
        live_of(Seq::empty(), module) is None,
        l.module_id == module ==> live_of(seq![l] + live, module) == Some(l),
        l.module_id != module ==> live_of(seq![l] + live, module) == live_of(live, module),
{
    assert((seq![l] + live).drop_first() =~= live);
}

/// Dropping a module takes its layers and no other.
pub proof fn law_only_the_modules_layers_are_dropped(
    s: Seq<ConfigLayerView>,
    l: ConfigLayerView,
    module: Seq<char>,
)
    ensures
        without_module(Seq::empty(), module) == Seq::<ConfigLayerView>::empty(),
        l.module_id == module ==> without_module(s.push(l), module) == without_module(s, module),
        l.module_id != module ==> without_module(s.push(l), module) == without_module(
            s,
            module,
        ).push(l),
{
    assert(s.push(l).drop_last() =~= s);
}

/// An activated layer stands directly below the first layer that outranks it,
/// the other modules' layers in the order they had.
pub proof fn law_layers_stand_below_what_outranks_them(
    s: Seq<ConfigLayerView>,
    l: ConfigLayerView,
)
    ensures
        ({
            let rest = without_module(s, l.module_id);
            exists|k: int|
                0 <= k <= rest.len() && #[trigger] stacked(s, l)[k] == l && stacked(s, l)
                    == rest.take(k).push(l) + rest.skip(k) && (forall|i: int|
                    0 <= i < k ==> (#[trigger] rest[i]).rank <= l.rank) && (k < rest.len()
                    ==> rest[k].rank > l.rank)
        }),
{
    let rest = without_module(s, l.module_id);
    let k = standing_below(rest, l.rank) as int;
    lemma_standing(rest, l.rank);
    assert(stacked(s, l)[k] == l);
    assert(stacked(s, l) =~= rest.take(k).push(l) + rest.skip(k));
}

/// A replaced generation changes its module's layer, in everything but its
/// module and rank, and no other layer.
pub proof fn law_replacements_change_their_layer(
    s: Seq<ConfigLayerView>,
    module: Seq<char>,
    generation: u64,
    package: Seq<char>,
    manifest: PackageManifestView,
    i: int,
)
    requires
        0 <= i < s.len(),
    ensures
        ({
            let r = restacked(s, module, generation, package, manifest);
            &&& r[i].module_id == s[i].module_id
            &&& r[i].rank == s[i].rank
            &&& s[i].module_id == module ==> r[i].generation == generation && r[i].package
                == package && r[i].manifest == manifest
            &&& s[i].module_id != module ==> r[i] == s[i]
        }),
{
}

/// The layer on top is the last one, and the packages are listed in the
/// order of the stack.
pub proof fn law_the_last_layer_is_on_top(s: Seq<ConfigLayerView>, l: ConfigLayerView)
    ensures
        top(Seq::empty()) is None,
        top(s.push(l)) == Some(l),
        packages_of(Seq::empty()) == Seq::<Seq<char>>::empty(),
        packages_of(s.push(l)) == packages_of(s).push(l.package),
{
    assert(packages_of(Seq::empty()) =~= Seq::<Seq<char>>::empty());
    assert(packages_of(s.push(l)) =~= packages_of(s).push(l.package));
}

/// Layers are activated one after the other: one that comes up is noted and
/// the next is next, and after the last the run is done.
pub proof fn law_layers_come_up_in_order(r: LayerRunView, index: nat)
    requires
        r.phase == (LayerPhaseView::Activate { index }),
        index < r.origins.len() <= usize::MAX,
    ensures
        ({
            let next = after_layer(r, Ok(()));
            &&& next.activated == r.activated.push(index as usize)
            &&& next.origins == r.origins
            &&& next.safe_mode == r.safe_mode
            &&& next.builtin_active <==> r.builtin_active || r.origins[index as int]
                == ModuleOrigin::Builtin
            &&& index + 1 < r.origins.len() ==> next.phase == (LayerPhaseView::Activate {
                index: index + 1,
            })
            &&& index + 1 >= r.origins.len() ==> next.phase == LayerPhaseView::Done
        }),
        activating(r.origins, 0) == (LayerPhaseView::Activate { index: 0 }),
        activating(Seq::empty(), 0) == LayerPhaseView::Done,
{
}

/// A built-in layer that fails disables the modules at once, for the reason it
/// failed with; a run waits for the answer to what it asked.
pub proof fn law_built_in_failures_disable_modules(r: LayerRunView, e: String, active: bool)
    ensures
        r.phase matches LayerPhaseView::Activate { index } ==> (r.origins[index as int]
            == ModuleOrigin::Builtin ==> after_layer(r, Err(e)).phase == (LayerPhaseView::Record {
            reason: e@,
            disable: true,
        }) && after_layer(r, Err(e)).activated == r.activated),
        r.phase matches LayerPhaseView::Activate { index } ==> (r.origins[index as int]
            != ModuleOrigin::Builtin ==> after_layer(r, Err(e)).phase == (LayerPhaseView::Drop {
            modules: foreign(r.origins, r.activated),
            reason: e@,
        })),
        !(r.phase is Activate) ==> after_layer(r, Err(e)) == r && after_layer(r, Ok(())) == r,
        !(r.phase is Drop) ==> after_drop(r) == r,
        !(r.phase is Fallback) ==> after_fallback(r, active) == r,
        r.phase is Fallback ==> after_fallback(r, active).builtin_active == active,
{
}

/// A state can be reset exactly where the module is known, binds a state key
/// and modules are enabled; then its own key is reset.
pub proof fn law_only_bound_states_are_reset(
    known: Option<PackageManifestView>,
    module: Seq<char>,
    enabled: bool,
)
    ensures
        reset_key(known, module, enabled) is Ok <==> known is Some && known->0.module_id == module
            && known->0.state_key is Some && enabled,
        reset_key(known, module, enabled) matches Ok(k) ==> known->0.state_key == Some(k),
        (known is Some && known->0.module_id == module && known->0.state_key is Some && !enabled)
            ==> reset_key(known, module, enabled) == Err::<Seq<char>, SessionErrorView>(
            SessionErrorView::ModulesDisabled,
        ),
{
}

/// An effect is dispatched exactly where modules are enabled, the caller's
/// generation is current and the arguments are a document.
pub proof fn law_effects_are_for_current_generations(
    enabled: bool,
    current: bool,
    generation: u64,
    key: KeyView,
    args: Seq<char>,
    fault: Seq<char>,
)
    ensures
        ({
            let r = effect_request(enabled, current, generation, key, args, fault);
            &&& r is Ok <==> enabled && current && json::parsed(args) is Some
            &&& !enabled ==> r == Err::<Seq<char>, SessionErrorView>(
                SessionErrorView::ModulesDisabled,
            )
            &&& (enabled && !current) ==> r == Err::<Seq<char>, SessionErrorView>(
                SessionErrorView::StaleGeneration { generation },
            )
        }),
{
}

} // verus!
