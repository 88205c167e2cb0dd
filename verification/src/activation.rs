//! Publishing a module's generation: the atomic reload of a config and the
//! replacement of a generation.
use vstd::prelude::*;
use crate::contribution::{Contribution, ContributionView, SettingsContribution};
use crate::elements;
use crate::epoch;
use crate::epoch::{CompositionStore, StagedSet};
use crate::errors::{ScopeError, ScopeErrorView};
use crate::event::Event;
use crate::hooks::LiveModule;
use crate::ids::{Digest, Id128};
use crate::layers;
use crate::layers::LayerSource;
use crate::package::PackageManifest;
use crate::registry;
use crate::registry::{ContributionRegistry, OverridePlan, RegistryView};
use crate::rules;
use crate::services;
use crate::services::{EntryView, Publication, ServiceError, ServiceErrorView};
use crate::session_error::{SessionError, SessionErrorView};
use crate::value;
use crate::value::Value;

verus! {

broadcast use value::group_views;

/// Why a generation cannot be published. The host then deactivates the module;
/// a refusal also leaves the last valid UI marked as stale.
#[derive(Debug, Clone, PartialEq, Eq)]
pub enum PublishError {
    /// Its own publications could not be pulled back out of the graph.
    Withdrawal(ServiceError),
    /// The set was refused.
    Refused(ScopeError),
}

/// What the caller of an activation or a replacement is told.
pub open spec fn failure_of(e: PublishError) -> SessionErrorView {
    match e {
        PublishError::Withdrawal(e) => SessionErrorView::Service(e@),
        PublishError::Refused(e) => SessionErrorView::Scope(e@),
    }
}

/// The session's error for a generation that cannot be published.
pub fn publish_failure(e: PublishError) -> (r: SessionError)
    ensures
        r@ == failure_of(e),
{
    match e {
        PublishError::Withdrawal(e) => SessionError::Service(e),
        PublishError::Refused(e) => SessionError::Scope(e),
    }
}

/// A published generation, with what is left to commit.
#[derive(Debug, Clone, PartialEq, Eq)]
pub struct Published {
    pub epoch: u64,
    /// The digest of the new composition, which the event refers to.
    pub digest: Digest,
    /// The bytes that the digest is taken of, to install as an object.
    pub bytes: Vec<u8>,
    pub event: Event,
    /// The merged settings, as they stand before the commit.
    pub settings: SettingsContribution,
}

/// The outcome of an activation.
#[derive(Debug, Clone, PartialEq, Eq)]
pub struct ConfigActivation {
    pub module_id: Id128,
    pub generation: u64,
    pub epoch: u64,
    pub event_seq: u64,
}

/// The registry with a generation's publications pulled out.
pub open spec fn unpublished(v: RegistryView, generation: u64) -> RegistryView {
    RegistryView {
        entries: v.entries,
        services: elements::withdrawn(
            v.services,
            elements::published_by(v.services, generation),
        ),
    }
}

pub open spec fn unpublish_error(v: RegistryView, generation: u64) -> Option<ServiceErrorView> {
    elements::withdrawal_error(v.services, elements::published_by(v.services, generation))
}

/// `e` is how a set staged against `against` is refused at epoch `current`.
pub open spec fn set_refused(
    v: RegistryView,
    removed: Seq<ContributionView>,
    staged: Seq<ContributionView>,
    against: u64,
    current: u64,
    e: ScopeErrorView,
) -> bool {
    let violation = rules::set_violation(
        registry::displaced(v.entries, removed),
        registry::displaced_services(v.services, removed),
        staged,
    );
    match violation {
        Some(violation) => e == violation,
        None => if against != current {
            e == (ScopeErrorView::StaleEpoch { staged: against, current })
        } else {
            epoch::published_over(v, removed, staged) is None && epoch::publish_over_refused(
                v,
                removed,
                staged,
                e,
            )
        },
    }
}

/// `p` is what is left to commit once the composition stands.
pub open spec fn to_commit(p: Published, c: epoch::Composition, v: RegistryView) -> bool {
    &&& p.epoch == c.epoch
    &&& p.digest@ == c.digest@
    &&& p.bytes@ == epoch::canonical_bytes(c.epoch, registry::snapshot_of(v))
    &&& p.settings@ == elements::host_settings(v)
}

fn publish_set<F: Fn(Vec<u8>) -> Digest>(
    registry: &mut ContributionRegistry,
    composition: &mut CompositionStore,
    staged: StagedSet,
    plan: &OverridePlan,
    digest_of: &F,
) -> (r: Result<(), ScopeError>)
    requires
        old(registry).wf(),
        old(composition).composition().epoch < u64::MAX,
        epoch::digests_all(*digest_of),
    ensures
        final(registry).wf(),
        match r {
            Ok(_) => {
                &&& staged.against_epoch == old(composition).composition().epoch
                &&& epoch::published_over(
                    old(registry)@,
                    value::views(plan.removed@),
                    value::views(staged.contributions@),
                ) == Some(final(registry)@)
                &&& epoch::composes(
                    final(composition).composition(),
                    old(composition).composition().epoch + 1,
                    final(registry)@,
                    *digest_of,
                )
            },
            Err(e) => {
                &&& final(registry)@ == old(registry)@
                &&& *final(composition) == *old(composition)
                &&& set_refused(
                    old(registry)@,
                    value::views(plan.removed@),
                    value::views(staged.contributions@),
                    staged.against_epoch,
                    old(composition).composition().epoch,
                    e@,
                )
            },
        },
{
    match registry.validate_planned(staged.contributions.as_slice(), plan) {
        Ok(()) => {},
        Err(e) => return Err(e),
    }
    composition.publish_planned(&staged, plan, registry, digest_of)
}

/// The atomic reload of a config: the generation's publications are staged,
/// with what else it published, against the state before its activation,
/// validated, and published at the epoch that was current then. It takes the
/// place of what lower layers hold under the same keys. On any failure nothing
/// is recorded and the last valid composition stays.
pub fn activate_config<F: Fn(Vec<u8>) -> Digest>(
    registry: &mut ContributionRegistry,
    composition: &mut CompositionStore,
    against_epoch: u64,
    active: &Vec<LayerSource>,
    rank: u8,
    m: &PackageManifest,
    generation: u64,
    package: &Digest,
    others: Vec<Contribution>,
    digest_of: &F,
) -> (r: Result<Published, PublishError>)
    requires
        old(registry).wf(),
        old(composition).composition().epoch < u64::MAX,
        epoch::digests_all(*digest_of),
    ensures
        final(registry).wf(),
        ({
            let base = unpublished(old(registry)@, generation);
            let staged = elements::activation_set(
                elements::published_by(old(registry)@.services, generation),
                m@,
                value::views(others@),
            );
            let removed = layers::superseded(
                base.services,
                value::views(active@),
                m.origin,
                rank,
                staged,
            );
            let current = old(composition).composition().epoch;
            match r {
                Ok(p) => {
                    &&& unpublish_error(old(registry)@, generation) is None
                    &&& against_epoch == current
                    &&& epoch::published_over(base, removed, staged) == Some(final(registry)@)
                    &&& epoch::composes(
                        final(composition).composition(),
                        current + 1,
                        final(registry)@,
                        *digest_of,
                    )
                    &&& to_commit(p, final(composition).composition(), final(registry)@)
                    &&& p.event@ == elements::composition_record(
                        (current + 1) as u64,
                        elements::delta_json(
                            elements::module_json(m@.module_id, generation, package@),
                            Seq::empty(),
                        ),
                        services::scope_text(m@.scope),
                        Seq::empty().push(package@).push(p.digest@),
                    )
                },
                Err(PublishError::Withdrawal(e)) => {
                    &&& unpublish_error(old(registry)@, generation) == Some(e@)
                    &&& final(registry)@ == base
                    &&& *final(composition) == *old(composition)
                },
                Err(PublishError::Refused(e)) => {
                    &&& unpublish_error(old(registry)@, generation) is None
                    &&& set_refused(base, removed, staged, against_epoch, current, e@)
                    &&& final(registry)@ == base
                    &&& *final(composition) == *old(composition)
                },
            }
        }),
{
    let contributions = match elements::stage_activation(registry, m, generation, others) {
        Ok(c) => c,
        Err(e) => return Err(PublishError::Withdrawal(e)),
    };
    let plan = layers::override_plan(registry.services(), active, m.origin, rank, &contributions);
    let staged = StagedSet { against_epoch, contributions };
    match publish_set(registry, composition, staged, &plan, digest_of) {
        Ok(()) => {},
        Err(e) => return Err(PublishError::Refused(e)),
    }
    let c = composition.current();
    let event = elements::activation_event(c.epoch, m, generation, package, &c.digest);
    Ok(
        Published {
            epoch: c.epoch,
            digest: c.digest.copy(),
            bytes: c.to_canonical_bytes(),
            event,
            settings: elements::snapshot_settings(registry),
        },
    )
}

/// The registry that a replacement is validated against: the new generation's
/// publications pulled out, and the old generation's contributions gone.
pub open spec fn replacement_base(
    v: RegistryView,
    generation: u64,
    old_published: Seq<ContributionView>,
) -> RegistryView {
    let base = unpublished(v, generation);
    if unpublish_error(v, generation) is Some || registry::service_removal_error(old_published)
        is Some {
        base
    } else {
        RegistryView {
            entries: registry::removed_from(base.entries, old_published),
            services: base.services,
        }
    }
}

/// Publishes the generation that replaces another: what the old one had
/// contributed leaves the composition and the new one's contributions join it.
/// `new_entries` is what the new generation has published.
pub fn replace_module<F: Fn(Vec<u8>) -> Digest>(
    registry: &mut ContributionRegistry,
    composition: &mut CompositionStore,
    against_epoch: u64,
    module: &Id128,
    old_module: &LiveModule,
    old_entries: &Vec<Publication>,
    old_published: &Vec<Contribution>,
    m: &PackageManifest,
    generation: u64,
    package: &Digest,
    others: Vec<Contribution>,
    digest_of: &F,
) -> (r: Result<Published, PublishError>)
    requires
        old(registry).wf(),
        old(composition).composition().epoch < u64::MAX,
        epoch::digests_all(*digest_of),
    ensures
        final(registry).wf(),
        ({
            let delta = elements::published_by(old(registry)@.services, generation);
            let base = replacement_base(
                old(registry)@,
                generation,
                value::views(old_published@),
            );
            let staged = elements::replacement_set(delta, m@, value::views(others@));
            let current = old(composition).composition().epoch;
            let removal = registry::service_removal_error(value::views(old_published@));
            match r {
                Ok(p) => {
                    &&& unpublish_error(old(registry)@, generation) is None
                    &&& removal is None
                    &&& against_epoch == current
                    &&& epoch::published_over(base, Seq::empty(), staged) == Some(
                        final(registry)@,
                    )
                    &&& epoch::composes(
                        final(composition).composition(),
                        current + 1,
                        final(registry)@,
                        *digest_of,
                    )
                    &&& to_commit(p, final(composition).composition(), final(registry)@)
                    &&& p.event@ == elements::composition_record(
                        (current + 1) as u64,
                        elements::delta_json(
                            elements::module_json_with_keys(
                                module@,
                                generation,
                                package@,
                                elements::key_texts(delta),
                            ),
                            Seq::empty().push(
                                elements::module_json_with_keys(
                                    module@,
                                    old_module@.generation,
                                    old_module@.package,
                                    elements::key_texts(value::views(old_entries@)),
                                ),
                            ),
                        ),
                        "/"@,
                        Seq::empty().push(old_module@.package).push(package@).push(p.digest@),
                    )
                },
                Err(PublishError::Withdrawal(e)) => {
                    &&& unpublish_error(old(registry)@, generation) == Some(e@)
                    &&& final(registry)@ == base
                    &&& *final(composition) == *old(composition)
                },
                Err(PublishError::Refused(e)) => {
                    &&& unpublish_error(old(registry)@, generation) is None
                    &&& match removal {
                        Some(x) => e@ == x,
                        None => set_refused(
                            base,
                            Seq::empty(),
                            staged,
                            against_epoch,
                            current,
                            e@,
                        ),
                    }
                    &&& final(registry)@ == base
                    &&& *final(composition) == *old(composition)
                },
            }
        }),
{
    let new_entries = elements::generation_entries(registry.services(), generation);
    let contributions = match elements::stage_replacement(registry, m, generation, others) {
        Ok(c) => c,
        Err(e) => return Err(PublishError::Withdrawal(e)),
    };
    match registry.remove_contributions(old_published.as_slice()) {
        Ok(()) => {},
        Err(e) => return Err(PublishError::Refused(e)),
    }
    let staged = StagedSet { against_epoch, contributions };
    let plan = OverridePlan { removed: Vec::new() };
    assert(value::views(plan.removed@) =~= Seq::empty());
    match publish_set(registry, composition, staged, &plan, digest_of) {
        Ok(()) => {},
        Err(e) => return Err(PublishError::Refused(e)),
    }
    let c = composition.current();
    let event = elements::replacement_event(
        c.epoch,
        module,
        old_module,
        old_entries,
        generation,
        package,
        &new_entries,
        &c.digest,
    );
    Ok(
        Published {
            epoch: c.epoch,
            digest: c.digest.copy(),
            bytes: c.to_canonical_bytes(),
            event,
            settings: elements::snapshot_settings(registry),
        },
    )
}

// ---------- laws ----------

/// A refused generation leaves nothing of it in the graph, and everything
/// else that was there.
pub proof fn law_refused_generations_leave_nothing(v: RegistryView, generation: u64, e: EntryView)
    requires
        services::unique_keys(v.services),
        unpublish_error(v, generation) is None,
    ensures
        unpublished(v, generation).entries == v.entries,
        unpublished(v, generation).services.contains(e) <==> v.services.contains(e)
            && e.provider.generation != generation,
{
    let key = services::entry_order();
    let all = crate::order::ordered(v.services, key);
    let own = elements::published_by(v.services, generation);
    elements::law_staging_only_takes_its_own(v.services, own, e);
    crate::order::lemma_ordered_contains(v.services, key, e);
    lemma_of_generation(all, generation);
    if v.services.contains(e) {
        if e.provider.generation == generation {
            assert(own.contains(e));
            let i = choose|i: int| 0 <= i < own.len() && own[i] == e;
            assert(own[i].key == e.key);
        } else {
            assert forall|i: int| 0 <= i < own.len() implies (#[trigger] own[i]).key != e.key by {
                assert(own.contains(own[i]));
                crate::order::lemma_ordered_contains(v.services, key, own[i]);
                assert(v.services.contains(own[i]));
                let a = choose|a: int| 0 <= a < v.services.len() && v.services[a] == own[i];
                let b = choose|b: int| 0 <= b < v.services.len() && v.services[b] == e;
                if own[i].key == e.key {
                    assert(v.services[a].key == v.services[b].key);
                    assert(a == b);
                }
            }
        }
    }
}

proof fn lemma_of_generation(s: Seq<EntryView>, generation: u64)
    ensures
        forall|e: EntryView| #[trigger]
            elements::of_generation(s, generation).contains(e) <==> s.contains(e)
                && e.provider.generation == generation,
    decreases s.len(),
{
    let r = elements::of_generation(s, generation);
    if s.len() > 0 {
        let d = s.drop_last();
        lemma_of_generation(d, generation);
        let rest = elements::of_generation(d, generation);
        assert forall|e: EntryView| #[trigger] r.contains(e) <==> s.contains(e)
            && e.provider.generation == generation by {
            if r.contains(e) {
                let i = choose|i: int| 0 <= i < r.len() && r[i] == e;
                if i < rest.len() {
                    assert(rest[i] == e);
                    assert(rest.contains(e));
                    let k = choose|k: int| 0 <= k < d.len() && d[k] == e;
                    assert(s[k] == e);
                } else {
                    assert(s[s.len() - 1] == e);
                }
            }
            if s.contains(e) && e.provider.generation == generation {
                let k = choose|k: int| 0 <= k < s.len() && s[k] == e;
                if k < d.len() {
                    assert(d[k] == e);
                    assert(d.contains(e));
                    assert(rest.contains(e));
                    let i = choose|i: int| 0 <= i < rest.len() && rest[i] == e;
                    assert(r[i] == e);
                } else {
                    assert(r[r.len() - 1] == e);
                }
            }
        }
    }
}

/// A caller is told what failed: a graph that would not let go is a service
/// error, and a set that is refused a scope error.
pub proof fn law_failures_are_told_apart(e: PublishError)
    ensures
        e is Withdrawal ==> failure_of(e) == SessionErrorView::Service(e->Withdrawal_0@),
        e is Refused ==> failure_of(e) == SessionErrorView::Scope(e->Refused_0@),
{
}

/// A set that breaks no rule but was staged at another epoch is refused as
/// stale.
pub proof fn law_stale_sets_are_refused(
    v: RegistryView,
    removed: Seq<ContributionView>,
    staged: Seq<ContributionView>,
    against: u64,
    current: u64,
    e: ScopeErrorView,
)
    requires
        rules::set_violation(
            registry::displaced(v.entries, removed),
            registry::displaced_services(v.services, removed),
            staged,
        ) is None,
        against != current,
    ensures
        set_refused(v, removed, staged, against, current, e) <==> e is StaleEpoch && e->staged
            == against && e->StaleEpoch_current == current,
{
}

/// A replacement is validated without what the old generation contributed:
/// its slots are empty, every other one is as it was, and the new
/// generation's services are out of the graph.
pub proof fn law_replacements_start_without_the_old(
    v: RegistryView,
    generation: u64,
    old_published: Seq<ContributionView>,
    slot: rules::Slot,
    e: EntryView,
)
    requires
        services::unique_keys(v.services),
        unpublish_error(v, generation) is None,
        registry::service_removal_error(old_published) is None,
    ensures
        ({
            let base = replacement_base(v, generation, old_published);
            &&& (exists|k: int|
                0 <= k < old_published.len() && rules::slot_of(#[trigger] old_published[k]) == slot)
                ==> rules::latest(base.entries, slot) is None
            &&& (forall|k: int|
                0 <= k < old_published.len() ==> rules::slot_of(#[trigger] old_published[k])
                    != slot) ==> rules::latest(base.entries, slot) == rules::latest(
                v.entries,
                slot,
            )
            &&& base.services.contains(e) <==> v.services.contains(e) && e.provider.generation
                != generation
        }),
{
    crate::registry_laws::law_removals_empty_their_slots(v.entries, old_published, slot);
    law_refused_generations_leave_nothing(v, generation, e);
}

/// What is left to commit speaks of the composition that stands: its epoch,
/// its digest and its settings.
pub proof fn law_commits_speak_of_what_stands(
    p: Published,
    c: epoch::Composition,
    v: RegistryView,
)
    requires
        to_commit(p, c, v),
    ensures
        p.epoch == c.epoch,
        p.digest@ == c.digest@,
        p.bytes@ == epoch::canonical_bytes(p.epoch, registry::snapshot_of(v)),
        p.settings@ == elements::host_settings(v),
{
}

} // verus!
