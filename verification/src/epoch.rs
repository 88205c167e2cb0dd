//! Epoch composition: staged sets are validated, applied and published
//! atomically against the epoch they were staged for.
use vstd::prelude::*;
use vstd::string::*;
use vstd::utf8::*;
use crate::contribution;
use crate::contribution::{Contribution, ContributionView};
use crate::errors::{ScopeError, ScopeErrorView};
use crate::ids::Digest;
use crate::json;
use crate::json_laws;
use crate::json::{Json, JsonView};
use crate::registry;
use crate::registry::{ContributionRegistry, OverridePlan, RegistryView};
use crate::rules;
use crate::services::ScopePath;
use crate::value;
use crate::value::Value;

verus! {

broadcast use value::group_views;

/// The current composition: an epoch, its digest, and the contributions that
/// the digest covers, in snapshot order.
#[derive(Clone, Debug, PartialEq, Eq)]
pub struct Composition {
    pub epoch: u64,
    pub digest: Digest,
    pub contributions: Vec<Contribution>,
}

/// A staged set with the epoch it was staged against.
#[derive(Clone, Debug, PartialEq, Eq)]
pub struct StagedSet {
    pub against_epoch: u64,
    pub contributions: Vec<Contribution>,
}

/// Owns the current composition and publishes staged sets.
pub struct CompositionStore {
    current: Composition,
}

pub open spec fn encoded(list: Seq<ContributionView>) -> Seq<JsonView> {
    list.map_values(|c: ContributionView| contribution::contribution_json(c))
}

/// What a composition's digest covers, marked with its domain.
pub open spec fn composition_document(epoch: u64, list: Seq<ContributionView>) -> JsonView {
    JsonView::Object(
        json::fields3(
            json::fv("domain"@, JsonView::Text("composition-v1"@)),
            json::fv("epoch"@, JsonView::Unsigned(epoch)),
            json::fv("contributions"@, JsonView::List(encoded(list))),
        ),
    )
}

/// The document a composition's digest is taken of: what it covers, every
/// object's fields in ascending order.
pub open spec fn composition_json(epoch: u64, list: Seq<ContributionView>) -> JsonView {
    json::normal(composition_document(epoch, list))
}

/// The bytes a composition's digest is taken of.
pub open spec fn canonical_bytes(epoch: u64, list: Seq<ContributionView>) -> Seq<u8> {
    encode_utf8(json::json_text(composition_json(epoch, list)))
}

fn composition_canonical_bytes(epoch: u64, list: &Vec<Contribution>) -> (r: Vec<u8>)
    ensures
        r@ == canonical_bytes(epoch, value::views(list@)),
{
    let ghost all = value::views(list@);
    let mut items: Vec<Json> = Vec::new();
    let mut i: usize = 0;
    assert(value::views(items@) =~= encoded(all).take(0));
    while i < list.len()
        invariant
            i <= list.len(),
            all == value::views(list@),
            value::views(items@) == encoded(all).take(i as int),
        decreases list.len() - i,
    {
        items.push(list[i].encode());
        i = i + 1;
        assert(encoded(all).take(i as int) =~= encoded(all).take(i - 1).push(encoded(all)[i - 1]));
    }
    assert(encoded(all).take(i as int) =~= encoded(all));
    let f = json::field(json::no_fields(), "domain", Json::Text("composition-v1".to_owned()));
    let f = json::field(f, "epoch", Json::Unsigned(epoch));
    let f = json::field(f, "contributions", json::list(items));
    let document = json::normalize(&json::record(f));
    let shown = json::render(&document);
    shown.as_str().as_bytes_vec()
}

impl Composition {
    /// The bytes the epoch digest is taken of.
    pub fn to_canonical_bytes(&self) -> (r: Vec<u8>)
        ensures
            r@ == canonical_bytes(self.epoch, value::views(self.contributions@)),
    {
        composition_canonical_bytes(self.epoch, &self.contributions)
    }
}

/// `c` is the composition of a registry state at an epoch, digested by
/// `digest_of`.
pub open spec fn composes<F: Fn(Vec<u8>) -> Digest>(
    c: Composition,
    epoch: int,
    v: RegistryView,
    digest_of: F,
) -> bool {
    &&& c.epoch == epoch
    &&& value::views(c.contributions@) == registry::snapshot_of(v)
    &&& exists|bytes: Vec<u8>|
        bytes@ == canonical_bytes(c.epoch, registry::snapshot_of(v)) && #[trigger] call_ensures(
            digest_of,
            (bytes,),
            c.digest,
        )
}

/// `digest_of` takes any bytes.
pub open spec fn digests_all<F: Fn(Vec<u8>) -> Digest>(digest_of: F) -> bool {
    forall|bytes: Vec<u8>| #[trigger] call_requires(digest_of, (bytes,))
}

fn compose<F: Fn(Vec<u8>) -> Digest>(
    epoch: u64,
    registry: &ContributionRegistry,
    digest_of: &F,
) -> (r: Composition)
    requires
        digests_all(*digest_of),
    ensures
        composes(r, epoch as int, registry@, *digest_of),
{
    let contributions = registry.snapshot();
    let bytes = composition_canonical_bytes(epoch, &contributions);
    let ghost digested = bytes;
    let digest = (*digest_of)(bytes);
    let r = Composition { epoch, digest, contributions };
    assert(value::views(r.contributions@) == registry::snapshot_of(registry@));
    assert(digested@ == canonical_bytes(r.epoch, registry::snapshot_of(registry@)));
    assert(call_ensures(*digest_of, (digested,), r.digest));
    assert(exists|bytes: Vec<u8>|
        bytes@ == canonical_bytes(r.epoch, registry::snapshot_of(registry@))
            && #[trigger] call_ensures(*digest_of, (bytes,), r.digest));
    r
}

/// The scope a staged set applies to: that of its first contribution, or the
/// root for an empty set.
pub open spec fn target_scope(staged: Seq<ContributionView>) -> Seq<Seq<char>> {
    if staged.len() > 0 {
        staged[0].scope
    } else {
        Seq::empty()
    }
}

/// The registry after `staged` was published, or nothing when it is refused.
pub open spec fn published(v: RegistryView, staged: Seq<ContributionView>) -> Option<RegistryView> {
    if rules::set_violation(v.entries, v.services, staged) is Some {
        None
    } else if registry::stray_error(staged, target_scope(staged)) is Some {
        None
    } else {
        registry::steps(v, Seq::empty(), staged)
    }
}

/// `e` is how publishing `staged` is refused.
pub open spec fn publish_refused(
    v: RegistryView,
    staged: Seq<ContributionView>,
    e: ScopeErrorView,
) -> bool {
    let violation = rules::set_violation(v.entries, v.services, staged);
    let stray = registry::stray_error(staged, target_scope(staged));
    if violation is Some {
        violation == Some(e)
    } else if stray is Some {
        stray == Some(e)
    } else {
        registry::set_refused(v, Seq::empty(), staged, e)
    }
}

/// The registry after `staged` was published in place of what it displaces, or
/// nothing when it is refused.
pub open spec fn published_over(
    v: RegistryView,
    removed: Seq<ContributionView>,
    staged: Seq<ContributionView>,
) -> Option<RegistryView> {
    if rules::set_violation(
        registry::displaced(v.entries, removed),
        registry::displaced_services(v.services, removed),
        staged,
    ) is Some {
        None
    } else if registry::stray_error(staged, target_scope(staged)) is Some {
        None
    } else {
        registry::steps(registry::start(v, removed), removed, staged)
    }
}

/// `e` is how publishing `staged` in place of what it displaces is refused.
pub open spec fn publish_over_refused(
    v: RegistryView,
    removed: Seq<ContributionView>,
    staged: Seq<ContributionView>,
    e: ScopeErrorView,
) -> bool {
    let violation = rules::set_violation(
        registry::displaced(v.entries, removed),
        registry::displaced_services(v.services, removed),
        staged,
    );
    let stray = registry::stray_error(staged, target_scope(staged));
    if violation is Some {
        violation == Some(e)
    } else if stray is Some {
        stray == Some(e)
    } else {
        registry::set_refused(registry::start(v, removed), removed, staged, e)
    }
}

/// A publish that displaces nothing is a plain publish.
pub proof fn law_empty_plans_change_nothing(
    v: RegistryView,
    staged: Seq<ContributionView>,
    e: ScopeErrorView,
)
    ensures
        published_over(v, Seq::empty(), staged) == published(v, staged),
        publish_over_refused(v, Seq::empty(), staged, e) == publish_refused(v, staged, e),
{
    assert(registry::start(v, Seq::empty()) == v);
}

impl CompositionStore {
    pub closed spec fn composition(&self) -> Composition {
        self.current
    }

    /// A store at epoch 0 over the registry's state.
    pub fn new<F: Fn(Vec<u8>) -> Digest>(
        registry: &ContributionRegistry,
        digest_of: &F,
    ) -> (r: Self)
        requires
            digests_all(*digest_of),
        ensures
            composes(r.composition(), 0, registry@, *digest_of),
    {
        CompositionStore { current: compose(0, registry, digest_of) }
    }

    /// The current composition.
    pub fn current(&self) -> (r: &Composition)
        ensures
            *r == self.composition(),
    {
        &self.current
    }

    /// Captures the current epoch with a set to publish later.
    pub fn stage(&self, contributions: Vec<Contribution>) -> (r: StagedSet)
        ensures
            r.against_epoch == self.composition().epoch,
            r.contributions == contributions,
    {
        StagedSet { against_epoch: self.current.epoch, contributions }
    }

    /// Validates a set as if the plan's contributions were gone, applies it in
    /// their place and advances the epoch by one. A refused set changes
    /// nothing.
    pub fn stage_publish_planned<F: Fn(Vec<u8>) -> Digest>(
        &mut self,
        staged: &[Contribution],
        plan: &OverridePlan,
        registry: &mut ContributionRegistry,
        digest_of: &F,
    ) -> (r: Result<(), ScopeError>)
        requires
            old(registry).wf(),
            old(self).composition().epoch < u64::MAX,
            digests_all(*digest_of),
        ensures
            final(registry).wf(),
            match r {
                Ok(_) => published_over(
                    old(registry)@,
                    value::views(plan.removed@),
                    value::views(staged@),
                ) == Some(final(registry)@) && composes(
                    final(self).composition(),
                    old(self).composition().epoch + 1,
                    final(registry)@,
                    *digest_of,
                ),
                Err(e) => {
                    &&& final(registry)@ == old(registry)@
                    &&& *final(self) == *old(self)
                    &&& published_over(
                        old(registry)@,
                        value::views(plan.removed@),
                        value::views(staged@),
                    ) is None
                    &&& publish_over_refused(
                        old(registry)@,
                        value::views(plan.removed@),
                        value::views(staged@),
                        e@,
                    )
                },
            },
    {
        match registry.validate_planned(staged, plan) {
            Err(e) => {
                return Err(e);
            },
            Ok(_) => {},
        }
        let scope = if staged.len() > 0 {
            staged[0].scope.copy()
        } else {
            ScopePath(Vec::new())
        };
        assert(scope@ =~= target_scope(value::views(staged@)));
        match registry.apply_planned(&scope, staged, plan) {
            Err(e) => {
                return Err(e);
            },
            Ok(_) => {},
        }
        self.current = compose(self.current.epoch + 1, registry, digest_of);
        Ok(())
    }

    /// Validates a set, applies it whole and advances the epoch by one. A
    /// refused set changes nothing.
    pub fn stage_publish<F: Fn(Vec<u8>) -> Digest>(
        &mut self,
        staged: &[Contribution],
        registry: &mut ContributionRegistry,
        digest_of: &F,
    ) -> (r: Result<(), ScopeError>)
        requires
            old(registry).wf(),
            old(self).composition().epoch < u64::MAX,
            digests_all(*digest_of),
        ensures
            final(registry).wf(),
            match r {
                Ok(_) => published(old(registry)@, value::views(staged@)) == Some(
                    final(registry)@,
                ) && composes(
                    final(self).composition(),
                    old(self).composition().epoch + 1,
                    final(registry)@,
                    *digest_of,
                ),
                Err(e) => {
                    &&& final(registry)@ == old(registry)@
                    &&& *final(self) == *old(self)
                    &&& published(old(registry)@, value::views(staged@)) is None
                    &&& publish_refused(old(registry)@, value::views(staged@), e@)
                },
            },
    {
        let plan = OverridePlan { removed: Vec::new() };
        let r = self.stage_publish_planned(staged, &plan, registry, digest_of);
        proof {
            assert(value::views(plan.removed@) =~= Seq::empty());
            law_empty_plans_change_nothing(
                old(registry)@,
                value::views(staged@),
                value::failure(r)->0,
            );
        }
        r
    }

    /// Publishes a staged set, unless the epoch has moved on since it was
    /// staged; a stale set changes nothing.
    pub fn publish<F: Fn(Vec<u8>) -> Digest>(
        &mut self,
        staged: &StagedSet,
        registry: &mut ContributionRegistry,
        digest_of: &F,
    ) -> (r: Result<(), ScopeError>)
        requires
            old(registry).wf(),
            old(self).composition().epoch < u64::MAX,
            digests_all(*digest_of),
        ensures
            final(registry).wf(),
            match r {
                Ok(_) => {
                    &&& staged.against_epoch == old(self).composition().epoch
                    &&& published(old(registry)@, value::views(staged.contributions@)) == Some(
                        final(registry)@,
                    )
                    &&& composes(
                        final(self).composition(),
                        old(self).composition().epoch + 1,
                        final(registry)@,
                        *digest_of,
                    )
                },
                Err(e) => {
                    &&& final(registry)@ == old(registry)@
                    &&& *final(self) == *old(self)
                    &&& if staged.against_epoch != old(self).composition().epoch {
                        e@ == (ScopeErrorView::StaleEpoch {
                            staged: staged.against_epoch,
                            current: old(self).composition().epoch,
                        })
                    } else {
                        published(old(registry)@, value::views(staged.contributions@)) is None
                            && publish_refused(
                            old(registry)@,
                            value::views(staged.contributions@),
                            e@,
                        )
                    }
                },
            },
    {
        if staged.against_epoch != self.current.epoch {
            return Err(
                ScopeError::StaleEpoch {
                    staged: staged.against_epoch,
                    current: self.current.epoch,
                },
            );
        }
        self.stage_publish(staged.contributions.as_slice(), registry, digest_of)
    }

    /// Publishes a staged set in place of what the plan displaces, unless the
    /// epoch has moved on since it was staged.
    pub fn publish_planned<F: Fn(Vec<u8>) -> Digest>(
        &mut self,
        staged: &StagedSet,
        plan: &OverridePlan,
        registry: &mut ContributionRegistry,
        digest_of: &F,
    ) -> (r: Result<(), ScopeError>)
        requires
            old(registry).wf(),
            old(self).composition().epoch < u64::MAX,
            digests_all(*digest_of),
        ensures
            final(registry).wf(),
            match r {
                Ok(_) => {
                    &&& staged.against_epoch == old(self).composition().epoch
                    &&& published_over(
                        old(registry)@,
                        value::views(plan.removed@),
                        value::views(staged.contributions@),
                    ) == Some(final(registry)@)
                    &&& composes(
                        final(self).composition(),
                        old(self).composition().epoch + 1,
                        final(registry)@,
                        *digest_of,
                    )
                },
                Err(e) => {
                    &&& final(registry)@ == old(registry)@
                    &&& *final(self) == *old(self)
                    &&& if staged.against_epoch != old(self).composition().epoch {
                        e@ == (ScopeErrorView::StaleEpoch {
                            staged: staged.against_epoch,
                            current: old(self).composition().epoch,
                        })
                    } else {
                        published_over(
                            old(registry)@,
                            value::views(plan.removed@),
                            value::views(staged.contributions@),
                        ) is None && publish_over_refused(
                            old(registry)@,
                            value::views(plan.removed@),
                            value::views(staged.contributions@),
                            e@,
                        )
                    }
                },
            },
    {
        if staged.against_epoch != self.current.epoch {
            return Err(
                ScopeError::StaleEpoch {
                    staged: staged.against_epoch,
                    current: self.current.epoch,
                },
            );
        }
        self.stage_publish_planned(staged.contributions.as_slice(), plan, registry, digest_of)
    }
}

/// Any change of the epoch or of a contribution changes the bytes that a
/// composition's digest is taken of: compositions with the same bytes are the
/// same, where the JSON in their contributions has its fields in ascending
/// order and its numbers written as numbers are.
pub proof fn law_bytes_tell_compositions_apart(
    m: u64,
    a: Seq<ContributionView>,
    n: u64,
    b: Seq<ContributionView>,
)
    requires
        forall|i: int| 0 <= i < a.len() ==> contribution::is_sorted(#[trigger] a[i]),
        forall|i: int| 0 <= i < b.len() ==> contribution::is_sorted(#[trigger] b[i]),
        json_laws::is_valid(composition_json(m, a)),
        json_laws::is_valid(composition_json(n, b)),
        canonical_bytes(m, a) == canonical_bytes(n, b),
    ensures
        m == n,
        a == b,
{
    let x = composition_json(m, a);
    let y = composition_json(n, b);
    encode_utf8_decode_utf8(json::json_text(x));
    encode_utf8_decode_utf8(json::json_text(y));
    json_laws::law_texts_tell_values_apart(x, y);
    reveal_strlit("domain");
    reveal_strlit("epoch");
    reveal_strlit("contributions");
    assert("domain"@.len() == 6 && "epoch"@.len() == 5 && "contributions"@.len() == 13);
    json_laws::lemma_sorted3(
        json::fv("domain"@, JsonView::Text("composition-v1"@)),
        json::fv("epoch"@, JsonView::Unsigned(m)),
        json::fv("contributions"@, JsonView::List(encoded(a))),
        json::fv("domain"@, JsonView::Text("composition-v1"@)),
        json::fv("epoch"@, JsonView::Unsigned(n)),
        json::fv("contributions"@, JsonView::List(encoded(b))),
    );
    json_laws::lemma_sorted_items(encoded(a), encoded(b));
    assert(a.len() == encoded(a).len() && b.len() == encoded(b).len());
    assert forall|i: int| 0 <= i < a.len() implies a[i] == b[i] by {
        assert(json::normal(encoded(a)[i]) == json::normal(encoded(b)[i]));
        contribution::lemma_sorted_encoding(a[i], b[i]);
    }
    assert(a =~= b);
}

/// What is published breaks no rule and is of one scope, and publishing
/// nothing changes nothing.
pub proof fn law_published_sets_are_checked(
    v: RegistryView,
    removed: Seq<ContributionView>,
    staged: Seq<ContributionView>,
    k: int,
)
    requires
        published_over(v, removed, staged) is Some,
        0 <= k < staged.len(),
    ensures
        staged[k].scope == staged[0].scope,
        rules::set_violation(
            registry::displaced(v.entries, removed),
            registry::displaced_services(v.services, removed),
            staged,
        ) is None,
{
    crate::registry_laws::law_sets_are_for_one_scope(staged, target_scope(staged));
    assert(staged[k].scope == target_scope(staged));
}

/// A set is refused for exactly one reason: a rule it breaks, or a scope that
/// is not its own, or a step that fails.
pub proof fn law_refusals_have_their_reason(
    v: RegistryView,
    staged: Seq<ContributionView>,
    e: ScopeErrorView,
)
    ensures
        rules::set_violation(v.entries, v.services, staged) matches Some(x) ==> (published(
            v,
            staged,
        ) is None && (publish_refused(v, staged, e) <==> e == x)),
        (rules::set_violation(v.entries, v.services, staged) is None && exists|k: int|
            0 <= k < staged.len() && (#[trigger] staged[k]).scope != staged[0].scope) ==> published(
            v,
            staged,
        ) is None,
{
    crate::registry_laws::law_sets_are_for_one_scope(staged, target_scope(staged));
}

/// A composition holds the registry's snapshot at its epoch, and its digest is
/// taken of the bytes of exactly that.
pub proof fn law_compositions_digest_what_they_hold<F: Fn(Vec<u8>) -> Digest>(
    c: Composition,
    epoch: int,
    v: RegistryView,
    digest_of: F,
)
    requires
        composes(c, epoch, v, digest_of),
    ensures
        c.epoch == epoch,
        value::views(c.contributions@) == registry::snapshot_of(v),
        exists|bytes: Vec<u8>|
            bytes@ == encode_utf8(
                json::json_text(
                    composition_json(epoch as u64, value::views(c.contributions@)),
                ),
            ) && #[trigger] call_ensures(digest_of, (bytes,), c.digest),
{
    let bytes = choose|bytes: Vec<u8>|
        bytes@ == canonical_bytes(c.epoch, registry::snapshot_of(v)) && #[trigger] call_ensures(
            digest_of,
            (bytes,),
            c.digest,
        );
    assert(call_ensures(digest_of, (bytes,), c.digest));
}

/// The document of a composition has its domain, its epoch and every
/// contribution, in order.
pub proof fn law_compositions_are_written_whole(epoch: u64, list: Seq<ContributionView>, i: int)
    requires
        0 <= i < list.len(),
    ensures
        ({
            let d = composition_document(epoch, list);
            &&& d is Object && d->Object_0.len() == 3
            &&& d->Object_0[0].name == "domain"@ && d->Object_0[0].value == JsonView::Text(
                "composition-v1"@,
            )
            &&& d->Object_0[1].name == "epoch"@ && d->Object_0[1].value == JsonView::Unsigned(epoch)
            &&& d->Object_0[2].name == "contributions"@ && d->Object_0[2].value is List
            &&& d->Object_0[2].value->List_0.len() == list.len()
            &&& d->Object_0[2].value->List_0[i] == contribution::contribution_json(list[i])
        }),
        composition_json(epoch, list) == json::normal(composition_document(epoch, list)),
{
}

/// A set applies to the scope of its first contribution, and an empty one to
/// the root.
pub proof fn law_sets_apply_to_their_first_scope(staged: Seq<ContributionView>)
    ensures
        staged.len() > 0 ==> target_scope(staged) == staged[0].scope,
        staged.len() == 0 ==> target_scope(staged).len() == 0,
{
}

} // verus!
