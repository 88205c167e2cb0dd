//! Precedence between active config layers: what a layer displaces when it is
//! published, and what is left of the overlays when one leaves.
use vstd::prelude::*;
use crate::contribution::{Contribution, ContributionView, SettingsContribution};
use crate::elements;
use crate::elements::{ConfigLayer, ConfigLayerView};
use crate::package::ModuleOrigin;
use crate::registry;
use crate::registry::{ContributionRegistry, OverridePlan};
use crate::rules;
use crate::services::{EntryView, ServiceRegistry};
use crate::settings_gate;
use crate::value;
use crate::value::Value;

verus! {

broadcast use value::group_views;

/// An active layer with what its generation published besides services.
#[derive(Debug, Clone, PartialEq, Eq)]
pub struct LayerSource {
    pub layer: ConfigLayer,
    pub published: Vec<Contribution>,
}

pub struct LayerSourceView {
    pub layer: ConfigLayerView,
    pub published: Seq<ContributionView>,
}

impl View for LayerSource {
    type V = LayerSourceView;

    open spec fn view(&self) -> LayerSourceView {
        LayerSourceView { layer: self.layer@, published: value::views(self.published@) }
    }
}

/// What a layer contributes: its services, then the rest as far as its origin
/// is trusted.
pub open spec fn layer_set(graph: Seq<EntryView>, l: LayerSourceView) -> Seq<ContributionView> {
    elements::activation_set(
        elements::published_by(graph, l.layer.generation),
        l.layer.manifest,
        l.published,
    )
}

fn contributed(graph: &ServiceRegistry, l: &LayerSource) -> (r: Vec<Contribution>)
    ensures
        value::views(r@) == layer_set(graph@, l@),
{
    let entries = elements::generation_entries(graph, l.layer.generation);
    let mut out = elements::service_set(&entries, &l.layer.manifest, true);
    let ghost first = value::views(out@);
    let copied = rules::copy_entries(l.published.as_slice());
    let mut rest = settings_gate::gate_settings_contributions(l.layer.manifest.origin, copied);
    let ghost second = value::views(rest@);
    out.append(&mut rest);
    proof {
        assert(value::views(out@) =~= first + second);
        assert(first =~= value::views(entries@).map_values(
            |e: EntryView| elements::as_declared(e, l@.layer.manifest),
        ));
    }
    out
}

// ---------- overlays ----------

/// What the layers contribute, the lowest first.
pub open spec fn all_contributed(
    graph: Seq<EntryView>,
    layers: Seq<LayerSourceView>,
) -> Seq<ContributionView>
    decreases layers.len(),
{
    if layers.len() == 0 {
        Seq::empty()
    } else {
        all_contributed(graph, layers.drop_last()) + layer_set(graph, layers.last())
    }
}

/// Rebuilds the overlays of the root scope from the layers that are left, the
/// lowest first, and takes a snapshot of the settings. Overlays merge and
/// cannot be taken apart again: a layer that was dropped or replaced leaves
/// nothing behind.
pub fn settle_overlays(registry: &mut ContributionRegistry, layers: &Vec<LayerSource>) -> (r:
    SettingsContribution)
    requires
        old(registry).wf(),
    ensures
        final(registry).wf(),
        final(registry)@.services == old(registry)@.services,
        final(registry)@.entries == registry::overlaid(
            registry::without_overlays(old(registry)@.entries, Seq::empty()),
            Seq::empty(),
            all_contributed(old(registry)@.services, value::views(layers@)),
        ),
        r@ == elements::host_settings(final(registry)@),
{
    let ghost graph = registry@.services;
    let ghost all = value::views(layers@);
    let mut survivors: Vec<Contribution> = Vec::new();
    let mut i: usize = 0;
    assert(all.take(0) =~= Seq::empty());
    assert(value::views(survivors@) =~= Seq::empty());
    while i < layers.len()
        invariant
            i <= layers.len(),
            all == value::views(layers@),
            *registry == *old(registry),
            graph == registry@.services,
            value::views(survivors@) == all_contributed(graph, all.take(i as int)),
        decreases layers.len() - i,
    {
        let ghost before = value::views(survivors@);
        proof {
            assert(all.take(i + 1).last() == layers@[i as int]@);
            assert(all.take(i + 1).drop_last() =~= all.take(i as int));
        }
        let mut own = contributed(registry.services(), &layers[i]);
        let ghost more = value::views(own@);
        survivors.append(&mut own);
        assert(value::views(survivors@) =~= before + more);
        i = i + 1;
    }
    assert(all.take(i as int) =~= all);
    let root = crate::builtin_config::root_scope();
    assert(root@ =~= Seq::empty());
    registry.recompose_overlays(&root, survivors.as_slice());
    elements::snapshot_settings(registry)
}

// ---------- displacement ----------

/// A staged contribution takes over the key of `c`.
pub open spec fn taken_over(c: ContributionView, staged: Seq<ContributionView>) -> bool {
    registry::override_key(c) is Some && exists|i: int|
        0 <= i < staged.len() && #[trigger] registry::override_key(staged[i])
            == registry::override_key(c)
}

/// Those contributions whose keys are taken over.
pub open spec fn taken_from(
    own: Seq<ContributionView>,
    staged: Seq<ContributionView>,
) -> Seq<ContributionView>
    decreases own.len(),
{
    if own.len() == 0 {
        Seq::empty()
    } else if taken_over(own.last(), staged) {
        taken_from(own.drop_last(), staged).push(own.last())
    } else {
        taken_from(own.drop_last(), staged)
    }
}

/// What a layer loses to a set that a module of this origin and rank stages.
pub open spec fn lost(
    graph: Seq<EntryView>,
    l: LayerSourceView,
    origin: ModuleOrigin,
    rank: u8,
    staged: Seq<ContributionView>,
) -> Seq<ContributionView> {
    if settings_gate::may_supersede(origin, rank, l.layer.manifest.origin, l.layer.rank) {
        taken_from(layer_set(graph, l), staged)
    } else {
        Seq::empty()
    }
}

/// What the active layers lose to a staged set.
pub open spec fn superseded(
    graph: Seq<EntryView>,
    layers: Seq<LayerSourceView>,
    origin: ModuleOrigin,
    rank: u8,
    staged: Seq<ContributionView>,
) -> Seq<ContributionView>
    decreases layers.len(),
{
    if layers.len() == 0 {
        Seq::empty()
    } else {
        superseded(graph, layers.drop_last(), origin, rank, staged) + lost(
            graph,
            layers.last(),
            origin,
            rank,
            staged,
        )
    }
}

fn is_taken_over(c: &Contribution, staged: &Vec<Contribution>) -> (r: bool)
    ensures
        r == taken_over(c@, value::views(staged@)),
{
    let (scope, name) = match registry::contribution_override_key(c) {
        Some(key) => key,
        None => return false,
    };
    let ghost all = value::views(staged@);
    let mut i: usize = 0;
    while i < staged.len()
        invariant
            i <= staged.len(),
            all == value::views(staged@),
            registry::override_key(c@) == Some((scope@, name@)),
            forall|k: int|
                0 <= k < i ==> #[trigger] registry::override_key(all[k])
                    != registry::override_key(c@),
        decreases staged.len() - i,
    {
        assert(all[i as int] == staged@[i as int]@);
        if let Some((at, id)) = registry::contribution_override_key(&staged[i]) {
            if at.same(&scope) && id.same(&name) {
                assert(registry::override_key(all[i as int]) == registry::override_key(c@));
                return true;
            }
        }
        i = i + 1;
    }
    false
}

/// Plans what a staged set displaces: a layer that outranks another takes over
/// the keys that both hold. Kinds that merge, guards and hooks stay.
pub fn override_plan(
    graph: &ServiceRegistry,
    layers: &Vec<LayerSource>,
    origin: ModuleOrigin,
    rank: u8,
    staged: &Vec<Contribution>,
) -> (r: OverridePlan)
    ensures
        value::views(r.removed@) == superseded(
            graph@,
            value::views(layers@),
            origin,
            rank,
            value::views(staged@),
        ),
{
    let ghost all = value::views(layers@);
    let ghost set = value::views(staged@);
    let mut removed: Vec<Contribution> = Vec::new();
    let mut i: usize = 0;
    assert(all.take(0) =~= Seq::empty());
    assert(value::views(removed@) =~= Seq::empty());
    while i < layers.len()
        invariant
            i <= layers.len(),
            all == value::views(layers@),
            set == value::views(staged@),
            value::views(removed@) == superseded(graph@, all.take(i as int), origin, rank, set),
        decreases layers.len() - i,
    {
        let ghost before = value::views(removed@);
        proof {
            assert(all.take(i + 1).last() == layers@[i as int]@);
            assert(all.take(i + 1).drop_last() =~= all.take(i as int));
        }
        let layer = &layers[i].layer;
        if settings_gate::settings_supersede_allowed(
            origin,
            rank,
            layer.manifest.origin,
            layer.rank,
        ) {
            let mut taken = take_over(contributed(graph, &layers[i]), staged);
            let ghost more = value::views(taken@);
            removed.append(&mut taken);
            assert(value::views(removed@) =~= before + more);
        } else {
            assert(before + Seq::<ContributionView>::empty() =~= before);
        }
        i = i + 1;
    }
    assert(all.take(i as int) =~= all);
    OverridePlan { removed }
}

fn take_over(own: Vec<Contribution>, staged: &Vec<Contribution>) -> (r: Vec<Contribution>)
    ensures
        value::views(r@) == taken_from(value::views(own@), value::views(staged@)),
{
    let ghost all = value::views(own@);
    let ghost set = value::views(staged@);
    let mut out: Vec<Contribution> = Vec::new();
    let mut i: usize = 0;
    assert(all.take(0) =~= Seq::empty());
    assert(value::views(out@) =~= Seq::empty());
    while i < own.len()
        invariant
            i <= own.len(),
            all == value::views(own@),
            set == value::views(staged@),
            value::views(out@) == taken_from(all.take(i as int), set),
        decreases own.len() - i,
    {
        proof {
            assert(all.take(i + 1).last() == own@[i as int]@);
            assert(all.take(i + 1).drop_last() =~= all.take(i as int));
        }
        if is_taken_over(&own[i], staged) {
            out.push(own[i].copy());
        }
        i = i + 1;
    }
    assert(all.take(i as int) =~= all);
    out
}

// ---------- laws ----------

proof fn lemma_taken_from(own: Seq<ContributionView>, staged: Seq<ContributionView>)
    ensures
        forall|c: ContributionView| #[trigger]
            taken_from(own, staged).contains(c) <==> own.contains(c) && taken_over(c, staged),
    decreases own.len(),
{
    let r = taken_from(own, staged);
    if own.len() > 0 {
        let d = own.drop_last();
        lemma_taken_from(d, staged);
        let rest = taken_from(d, staged);
        assert forall|c: ContributionView| #[trigger] r.contains(c) <==> own.contains(c)
            && taken_over(c, staged) by {
            if r.contains(c) {
                let i = choose|i: int| 0 <= i < r.len() && r[i] == c;
                if i < rest.len() {
                    assert(rest[i] == c);
                    assert(rest.contains(c));
                    let k = choose|k: int| 0 <= k < d.len() && d[k] == c;
                    assert(own[k] == c);
                } else {
                    assert(own[own.len() - 1] == c);
                }
            }
            if own.contains(c) && taken_over(c, staged) {
                let k = choose|k: int| 0 <= k < own.len() && own[k] == c;
                if k < d.len() {
                    assert(d[k] == c);
                    assert(d.contains(c));
                    assert(rest.contains(c));
                    let i = choose|i: int| 0 <= i < rest.len() && rest[i] == c;
                    assert(r[i] == c);
                } else {
                    assert(r[r.len() - 1] == c);
                }
            }
        }
    }
}

/// What a staged set displaces is exactly what holds a key that it stages, in
/// a layer that its module may supersede.
pub proof fn law_only_superseded_holders_are_displaced(
    graph: Seq<EntryView>,
    layers: Seq<LayerSourceView>,
    origin: ModuleOrigin,
    rank: u8,
    staged: Seq<ContributionView>,
    c: ContributionView,
)
    ensures
        superseded(graph, layers, origin, rank, staged).contains(c) <==> taken_over(c, staged)
            && exists|i: int|
            0 <= i < layers.len() && settings_gate::may_supersede(
                origin,
                rank,
                layers[i].layer.manifest.origin,
                layers[i].layer.rank,
            ) && #[trigger] layer_set(graph, layers[i]).contains(c),
    decreases layers.len(),
{
    let all = superseded(graph, layers, origin, rank, staged);
    if layers.len() > 0 {
        let d = layers.drop_last();
        let l = layers.last();
        law_only_superseded_holders_are_displaced(graph, d, origin, rank, staged, c);
        lemma_taken_from(layer_set(graph, l), staged);
        let rest = superseded(graph, d, origin, rank, staged);
        let more = lost(graph, l, origin, rank, staged);
        if all.contains(c) {
            let k = choose|k: int| 0 <= k < all.len() && all[k] == c;
            if k < rest.len() {
                assert(rest[k] == c);
                assert(rest.contains(c));
                let i = choose|i: int|
                    0 <= i < d.len() && settings_gate::may_supersede(
                        origin,
                        rank,
                        d[i].layer.manifest.origin,
                        d[i].layer.rank,
                    ) && #[trigger] layer_set(graph, d[i]).contains(c);
                assert(layers[i] == d[i]);
            } else {
                assert(more[k - rest.len()] == c);
                assert(more.contains(c));
                assert(layer_set(graph, layers[layers.len() - 1]).contains(c));
            }
        }
        if taken_over(c, staged) && exists|i: int|
            0 <= i < layers.len() && settings_gate::may_supersede(
                origin,
                rank,
                layers[i].layer.manifest.origin,
                layers[i].layer.rank,
            ) && #[trigger] layer_set(graph, layers[i]).contains(c) {
            let i = choose|i: int|
                0 <= i < layers.len() && settings_gate::may_supersede(
                    origin,
                    rank,
                    layers[i].layer.manifest.origin,
                    layers[i].layer.rank,
                ) && #[trigger] layer_set(graph, layers[i]).contains(c);
            if i < d.len() {
                assert(d[i] == layers[i]);
                assert(rest.contains(c));
                let k = choose|k: int| 0 <= k < rest.len() && rest[k] == c;
                assert(all[k] == c);
            } else {
                assert(more.contains(c));
                let k = choose|k: int| 0 <= k < more.len() && more[k] == c;
                assert(all[rest.len() + k] == c);
            }
        }
    }
}

/// Settings, keymaps, themes, guards and hooks are never displaced.
pub proof fn law_merging_kinds_are_not_displaced(c: ContributionView, staged: Seq<ContributionView>)
    requires
        c.kind is Settings || c.kind is Keymap || c.kind is Theme || c.kind is Guard
            || c.kind is Hook,
    ensures
        !taken_over(c, staged),
{
}

/// An untrusted module takes nothing from a trusted layer.
pub proof fn law_trusted_layers_keep_their_own(
    graph: Seq<EntryView>,
    l: LayerSourceView,
    origin: ModuleOrigin,
    rank: u8,
    staged: Seq<ContributionView>,
)
    requires
        settings_gate::is_trusted(l.layer.manifest.origin),
        !settings_gate::is_trusted(origin),
    ensures
        lost(graph, l, origin, rank, staged) == Seq::<ContributionView>::empty(),
{
}

/// Every layer contributes, the lowest first.
pub proof fn law_every_layer_contributes(
    graph: Seq<EntryView>,
    layers: Seq<LayerSourceView>,
    l: LayerSourceView,
)
    ensures
        all_contributed(graph, Seq::empty()) == Seq::<ContributionView>::empty(),
        all_contributed(graph, layers.push(l)) == all_contributed(graph, layers) + layer_set(
            graph,
            l,
        ),
{
    assert(layers.push(l).drop_last() =~= layers);
}

/// A layer contributes its generation's services, under its scope and with
/// the dependencies that its manifest declares, and after them everything
/// else it published, in order.
pub proof fn law_layers_contribute_their_own(
    graph: Seq<EntryView>,
    l: LayerSourceView,
    i: int,
)
    requires
        0 <= i < layer_set(graph, l).len(),
    ensures
        ({
            let own = elements::published_by(graph, l.layer.generation);
            let c = layer_set(graph, l)[i];
            &&& layer_set(graph, l).len() == own.len() + l.published.len()
            &&& i < own.len() ==> c.scope == l.layer.manifest.scope && c.kind is Service
                && c.kind->Service_key == own[i].key && c.kind->Service_provider == own[i].provider
                && c.kind->Service_deps == l.layer.manifest.deps
            &&& i >= own.len() ==> c.scope == l.published[i - own.len()].scope
            &&& (i >= own.len() && !(l.published[i - own.len()].kind is Settings)) ==> c
                == l.published[i - own.len()]
        }),
{
}

} // verus!
