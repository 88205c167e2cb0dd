//! The contribution registry: validation against the fixed rules, atomic
//! application, removal, and a deterministic snapshot.
use vstd::prelude::*;
use vstd::string::*;
use crate::contribution;
use crate::contribution::{
    CommandContribution, Contribution, ContributionKind, ContributionView, HookKind, Keybinding,
    KindView, ProjectionStageContribution, ServiceContribution, SettingsContribution, SettingsView,
    ThemeContribution, ToolContribution, UiMountContribution,
};
use crate::errors::{ScopeError, ScopeErrorView};
use crate::json;
use crate::json::{Json, JsonView};
use crate::order;
use crate::order::Keyed;
use crate::rules;
use crate::rules::Slot;
use crate::services;
use crate::services::{
    DependencyView, EntryView, KeyView, ProviderView, Publication, ScopePath, ServiceDependency,
    ServiceRegistry,
};
use crate::text;
use crate::value;
use crate::value::Value;

verus! {

broadcast use value::group_views;

/// What a scope removal took with it: the scope's own contributions and the
/// services that fell with it, and the other scopes that lost services.
#[derive(Debug, Clone, PartialEq)]
pub struct RemovedSet {
    pub contributions: Vec<Contribution>,
    pub cascaded_scopes: Vec<ScopePath>,
}

/// The lower-precedence contributions that one publish replaces.
#[derive(Debug, Clone, PartialEq)]
pub struct OverridePlan {
    pub removed: Vec<Contribution>,
}

impl Default for OverridePlan {
    fn default() -> (r: Self)
        ensures
            value::views(r.removed@) == Seq::<ContributionView>::empty(),
    {
        OverridePlan { removed: Vec::new() }
    }
}

impl OverridePlan {
    pub fn is_empty(&self) -> (r: bool)
        ensures
            r == (self.removed@.len() == 0),
    {
        self.removed.len() == 0
    }
}

/// The scope and identity a contribution occupies for precedence replacement;
/// nothing for the kinds that merge and for guards.
pub open spec fn override_key(c: ContributionView) -> Option<(Seq<Seq<char>>, Seq<char>)> {
    match contribution::identity(c.kind) {
        Some(id) => Some((c.scope, id)),
        None => None,
    }
}

/// The scope and identity a contribution occupies for precedence replacement.
pub fn contribution_override_key(c: &Contribution) -> (r: Option<(ScopePath, String)>)
    ensures
        match r {
            Some(k) => override_key(c@) == Some((k.0@, k.1@)),
            None => override_key(c@) is None,
        },
{
    match c.kind.override_identity() {
        Some(id) => Some((c.scope.copy(), id)),
        None => None,
    }
}

/// The registrations: non-service entries, and the service graph.
pub struct RegistryView {
    pub entries: Seq<ContributionView>,
    pub services: Seq<EntryView>,
}

/// The typed contribution registries over one service graph.
pub struct ContributionRegistry {
    entries: Vec<Contribution>,
    services: ServiceRegistry,
}

impl View for ContributionRegistry {
    type V = RegistryView;

    closed spec fn view(&self) -> RegistryView {
        RegistryView { entries: value::views(self.entries@), services: self.services@ }
    }
}

/// Layered kinds may hold several entries in one slot.
pub open spec fn layers(kind: KindView) -> bool {
    kind is Keymap || kind is Hook
}

/// One entry per slot except for layers, overlays are objects, UI slots are
/// given, and services live in the graph only.
pub open spec fn entries_ok(s: Seq<ContributionView>) -> bool {
    &&& forall|i: int, j: int|
        0 <= i < s.len() && 0 <= j < s.len() && rules::slot_of(#[trigger] s[i]) == rules::slot_of(
            #[trigger] s[j],
        ) && !layers(s[i].kind) ==> i == j
    &&& forall|i: int| 0 <= i < s.len() ==> entry_ok(#[trigger] s[i])
}

pub open spec fn entry_ok(c: ContributionView) -> bool {
    match c.kind {
        KindView::Service { .. } => false,
        KindView::Theme { overlay, .. } => overlay is Object,
        KindView::UiMount { slot, .. } => slot is Some,
        _ => true,
    }
}

// ---------- application ----------

/// The entries left when the plan's contributions are displaced. Settings
/// merge only, so a plan never takes them out; services are in the graph.
pub open spec fn displaced(
    s: Seq<ContributionView>,
    removed: Seq<ContributionView>,
) -> Seq<ContributionView>
    decreases removed.len(),
{
    if removed.len() == 0 {
        s
    } else {
        let rest = displaced(s, removed.drop_last());
        let c = removed.last();
        if c.kind is Service || c.kind is Settings {
            rest
        } else {
            rules::cleared(rest, rules::slot_of(c))
        }
    }
}

/// The service graph with the plan's services taken out.
pub open spec fn displaced_services(
    s: Seq<EntryView>,
    removed: Seq<ContributionView>,
) -> Seq<EntryView>
    decreases removed.len(),
{
    if removed.len() == 0 {
        s
    } else {
        let rest = displaced_services(s, removed.drop_last());
        match removed.last().kind {
            KindView::Service { key, .. } => services::without(rest, key),
            _ => rest,
        }
    }
}

/// The plan displaces the service `key`.
pub open spec fn plan_names(removed: Seq<ContributionView>, key: KeyView) -> bool {
    exists|i: int|
        0 <= i < removed.len() && rules::slot_of(#[trigger] removed[i]) == (Slot::Service { key })
}

/// The refusal of the first contribution staged for another scope.
pub open spec fn stray_error(
    staged: Seq<ContributionView>,
    scope: Seq<Seq<char>>,
) -> Option<ScopeErrorView>
    decreases staged.len(),
{
    if staged.len() == 0 {
        None
    } else if stray_error(staged.drop_last(), scope) is Some {
        stray_error(staged.drop_last(), scope)
    } else if staged.last().scope != scope {
        Some(
            ScopeErrorView::InvalidContribution {
                scope: staged.last().scope,
                reason: "contribution staged for scope `"@ + services::scope_text(
                    staged.last().scope,
                ) + "` while applying to `"@ + services::scope_text(scope) + "`"@,
            },
        )
    } else {
        None
    }
}

/// The graph accepts the publication.
pub open spec fn service_fits(
    s: Seq<EntryView>,
    key: KeyView,
    provider: ProviderView,
    deps: Seq<DependencyView>,
) -> bool {
    let dependent = KeyView { scope: key.scope, name: provider.contract.name };
    &&& services::reach_error(deps, key.scope) is None
    &&& services::layered(services::graph_with(s, dependent, deps))
    &&& services::publish_error(s, key, provider) is None
}

/// The graph as a staged service finds it: without the holder it replaces.
pub open spec fn graph_base(
    s: Seq<EntryView>,
    removed: Seq<ContributionView>,
    key: KeyView,
) -> Seq<EntryView> {
    if plan_names(removed, key) {
        services::without(s, key)
    } else {
        s
    }
}

/// The entries after a theme overlay was merged in.
pub open spec fn theme_merged(
    s: Seq<ContributionView>,
    c: ContributionView,
) -> Seq<ContributionView> {
    let p = rules::last_place(s, rules::slot_of(c));
    if p >= 0 {
        s.update(
            p,
            ContributionView {
                scope: c.scope,
                kind: KindView::Theme {
                    name: c.kind->Theme_name,
                    overlay: JsonView::Object(
                        json::merged(
                            s[p].kind->Theme_overlay->Object_0,
                            c.kind->Theme_overlay->Object_0,
                        ),
                    ),
                },
            },
        )
    } else {
        s.push(c)
    }
}

/// The settings that stand for a scope; the empty overlay where none do.
pub open spec fn standing_settings(s: Seq<ContributionView>, slot: Slot) -> SettingsView {
    match rules::latest(s, slot) {
        Some(e) => e.kind->Settings_0,
        None => contribution::no_settings(),
    }
}

/// The entries after a settings overlay was merged in.
pub open spec fn settings_merged(
    s: Seq<ContributionView>,
    c: ContributionView,
) -> Seq<ContributionView> {
    rules::put(
        s,
        ContributionView {
            scope: c.scope,
            kind: KindView::Settings(
                rules::settings_over(
                    standing_settings(s, rules::slot_of(c)),
                    c.kind->Settings_0,
                ),
            ),
        },
    )
}

/// A UI mount with its slot given.
pub open spec fn slotted(c: ContributionView) -> ContributionView {
    ContributionView {
        scope: c.scope,
        kind: KindView::UiMount {
            name: c.kind->UiMount_name,
            component: c.kind->component,
            slot: Some(
                match c.kind->UiMount_slot {
                    Some(t) => t,
                    None => "main"@,
                },
            ),
        },
    }
}

/// The entries after a non-service contribution was registered.
pub open spec fn registered(
    s: Seq<ContributionView>,
    c: ContributionView,
) -> Seq<ContributionView> {
    match c.kind {
        KindView::Keymap { .. } => s.push(c),
        KindView::Hook { .. } => s.push(c),
        KindView::Theme { .. } => theme_merged(s, c),
        KindView::Settings(_) => settings_merged(s, c),
        KindView::UiMount { .. } => rules::put(s, slotted(c)),
        _ => rules::put(s, c),
    }
}

/// The registry after one staged contribution, or nothing when it is refused.
pub open spec fn step(
    v: RegistryView,
    removed: Seq<ContributionView>,
    c: ContributionView,
) -> Option<RegistryView> {
    match c.kind {
        KindView::Service { key, provider, deps } => {
            let base = graph_base(v.services, removed, key);
            if service_fits(base, key, provider, deps) {
                Some(
                    RegistryView {
                        entries: v.entries,
                        services: base.push(EntryView { key, provider, deps }),
                    },
                )
            } else {
                None
            }
        },
        KindView::Theme { overlay, .. } => if overlay is Object {
            Some(
                RegistryView { entries: registered(v.entries, c), services: v.services },
            )
        } else {
            None
        },
        _ => Some(RegistryView { entries: registered(v.entries, c), services: v.services }),
    }
}

/// The registry after a whole staged set, or nothing when some step is
/// refused.
pub open spec fn steps(
    v: RegistryView,
    removed: Seq<ContributionView>,
    staged: Seq<ContributionView>,
) -> Option<RegistryView>
    decreases staged.len(),
{
    if staged.len() == 0 {
        Some(v)
    } else {
        match steps(v, removed, staged.drop_last()) {
            Some(w) => step(w, removed, staged.last()),
            None => None,
        }
    }
}

/// `e` is how `c` is refused in `v`.
pub open spec fn refuses(
    v: RegistryView,
    removed: Seq<ContributionView>,
    c: ContributionView,
    e: ScopeErrorView,
) -> bool {
    match c.kind {
        KindView::Service { key, provider, deps } => {
            let base = graph_base(v.services, removed, key);
            let dependent = KeyView { scope: key.scope, name: provider.contract.name };
            e matches ScopeErrorView::Service(inner) && (services::checks(
                base,
                deps,
                dependent,
                Some(inner),
            ) || (services::checks(base, deps, dependent, None) && services::publish_error(
                base,
                key,
                provider,
            ) == Some(inner)))
        },
        KindView::Theme { .. } => e == rules::theme_error(c.scope),
        _ => false,
    }
}

/// `e` is how the first refused contribution of the set is refused.
pub open spec fn set_refused(
    v: RegistryView,
    removed: Seq<ContributionView>,
    staged: Seq<ContributionView>,
    e: ScopeErrorView,
) -> bool {
    exists|n: int|
        0 <= n < staged.len() && (#[trigger] steps(v, removed, staged.take(n)) matches Some(w)
            && refuses(w, removed, staged[n], e))
}

/// The registry with the plan's non-service contributions displaced.
pub open spec fn start(v: RegistryView, removed: Seq<ContributionView>) -> RegistryView {
    RegistryView { entries: displaced(v.entries, removed), services: v.services }
}

proof fn lemma_stray_error_stays(staged: Seq<ContributionView>, scope: Seq<Seq<char>>, n: int)
    requires
        0 <= n <= staged.len(),
        stray_error(staged.take(n), scope) is Some,
    ensures
        stray_error(staged, scope) == stray_error(staged.take(n), scope),
    decreases staged.len() - n,
{
    if n == staged.len() {
        assert(staged.take(n) =~= staged);
    } else {
        assert(staged.take(n + 1).drop_last() =~= staged.take(n));
        lemma_stray_error_stays(staged, scope, n + 1);
    }
}

/// A refused step refuses the whole set.
pub proof fn lemma_steps_stop(
    v: RegistryView,
    removed: Seq<ContributionView>,
    staged: Seq<ContributionView>,
    n: int,
)
    requires
        0 <= n <= staged.len(),
        steps(v, removed, staged.take(n)) is None,
    ensures
        steps(v, removed, staged) is None,
    decreases staged.len() - n,
{
    if n == staged.len() {
        assert(staged.take(n) =~= staged);
    } else {
        assert(staged.take(n + 1).drop_last() =~= staged.take(n));
        lemma_steps_stop(v, removed, staged, n + 1);
    }
}

/// A contribution that is refused has no next state.
proof fn lemma_refused_has_no_step(
    v: RegistryView,
    removed: Seq<ContributionView>,
    c: ContributionView,
    e: ScopeErrorView,
)
    requires
        c.kind is Service,
        refuses(v, removed, c, e),
    ensures
        step(v, removed, c) is None,
{
    if let KindView::Service { key, provider, deps } = c.kind {
        let base = graph_base(v.services, removed, key);
        let dependent = KeyView { scope: key.scope, name: provider.contract.name };
        let inner = e->Service_0;
        if services::checks(base, deps, dependent, Some(inner)) {
            if services::reach_error(deps, key.scope) is None {
                crate::service_laws::law_cycle_refusal_is_exact(
                    base,
                    deps,
                    dependent,
                    Some(inner),
                );
            }
        }
    }
}

// ---------- what the operations keep ----------

/// Clearing a slot keeps only entries that were there, in order.
proof fn lemma_cleared(s: Seq<ContributionView>, slot: Slot)
    ensures
        forall|i: int|
            0 <= i < rules::cleared(s, slot).len() ==> rules::slot_of(
                #[trigger] rules::cleared(s, slot)[i],
            ) != slot && s.contains(rules::cleared(s, slot)[i]),
        entries_ok(s) ==> entries_ok(rules::cleared(s, slot)),
    decreases s.len(),
{
    let all = rules::cleared(s, slot);
    if s.len() > 0 {
        let t = s.drop_last();
        let rest = rules::cleared(t, slot);
        lemma_cleared(t, slot);
        assert forall|i: int| 0 <= i < all.len() implies rules::slot_of(#[trigger] all[i]) != slot
            && s.contains(all[i]) by {
            if i < rest.len() {
                assert(all[i] == rest[i]);
                assert(t.contains(rest[i]));
                let k = choose|k: int| 0 <= k < t.len() && t[k] == rest[i];
                assert(s[k] == rest[i]);
            } else {
                assert(s[s.len() - 1] == all[i]);
            }
        }
        if entries_ok(s) {
            assert(entries_ok(t)) by {
                assert forall|i: int, j: int|
                    0 <= i < t.len() && 0 <= j < t.len() && rules::slot_of(#[trigger] t[i])
                        == rules::slot_of(#[trigger] t[j]) && !layers(t[i].kind) implies i == j by {
                    assert(t[i] == s[i] && t[j] == s[j]);
                }
                assert forall|i: int| 0 <= i < t.len() implies entry_ok(#[trigger] t[i]) by {
                    assert(t[i] == s[i]);
                }
            }
            assert forall|i: int| 0 <= i < all.len() implies entry_ok(#[trigger] all[i]) by {
                let k = choose|k: int| 0 <= k < s.len() && s[k] == all[i];
                assert(s.contains(all[i]));
                assert(entry_ok(s[k]));
            }
            assert forall|i: int, j: int|
                0 <= i < all.len() && 0 <= j < all.len() && rules::slot_of(#[trigger] all[i])
                    == rules::slot_of(#[trigger] all[j]) && !layers(all[i].kind) implies i == j by {
                if i < rest.len() && j < rest.len() {
                    assert(all[i] == rest[i] && all[j] == rest[j]);
                } else if i < rest.len() || j < rest.len() {
                    let m = if i < rest.len() {
                        i
                    } else {
                        j
                    };
                    assert(all[m] == rest[m]);
                    assert(t.contains(rest[m]));
                    let k = choose|k: int| 0 <= k < t.len() && t[k] == rest[m];
                    assert(s[k] == rest[m]);
                    assert(rules::slot_of(s[k]) == rules::slot_of(s[s.len() - 1]));
                    lemma_same_slot_same_layering(s[k], s[s.len() - 1]);
                }
            }
        }
    }
}

/// Entries of one slot are of one kind.
proof fn lemma_same_slot_same_layering(a: ContributionView, b: ContributionView)
    requires
        rules::slot_of(a) == rules::slot_of(b),
    ensures
        layers(a.kind) == layers(b.kind),
        a.kind is Theme == b.kind is Theme,
        a.kind is Settings == b.kind is Settings,
        a.kind is UiMount == b.kind is UiMount,
        a.kind is Service == b.kind is Service,
{
}

/// Putting a well-formed entry keeps the entries well formed.
proof fn lemma_put_ok(s: Seq<ContributionView>, c: ContributionView)
    requires
        entries_ok(s),
        entry_ok(c),
    ensures
        entries_ok(rules::put(s, c)),
{
    rules::lemma_last_place(s, rules::slot_of(c));
    let p = rules::last_place(s, rules::slot_of(c));
    let t = rules::put(s, c);
    assert forall|i: int| 0 <= i < t.len() implies entry_ok(#[trigger] t[i]) by {
        if i < s.len() && i != p {
            assert(t[i] == s[i]);
        }
    }
    assert forall|i: int, j: int|
        0 <= i < t.len() && 0 <= j < t.len() && rules::slot_of(#[trigger] t[i]) == rules::slot_of(
            #[trigger] t[j],
        ) && !layers(t[i].kind) implies i == j by {
        if p >= 0 {
            lemma_same_slot_same_layering(s[p], c);
            assert(rules::slot_of(s[i]) == rules::slot_of(t[i]));
            assert(rules::slot_of(s[j]) == rules::slot_of(t[j]));
            lemma_same_slot_same_layering(s[i], t[i]);
        } else {
            if i < s.len() {
                assert(t[i] == s[i]);
            }
            if j < s.len() {
                assert(t[j] == s[j]);
            }
        }
    }
}

/// Pushing a layer keeps the entries well formed.
proof fn lemma_push_layer_ok(s: Seq<ContributionView>, c: ContributionView)
    requires
        entries_ok(s),
        layers(c.kind),
    ensures
        entries_ok(s.push(c)),
{
    let t = s.push(c);
    assert forall|i: int| 0 <= i < t.len() implies entry_ok(#[trigger] t[i]) by {
        if i < s.len() {
            assert(t[i] == s[i]);
        }
    }
    assert forall|i: int, j: int|
        0 <= i < t.len() && 0 <= j < t.len() && rules::slot_of(#[trigger] t[i]) == rules::slot_of(
            #[trigger] t[j],
        ) && !layers(t[i].kind) implies i == j by {
        lemma_same_slot_same_layering(t[i], t[j]);
        assert(i < s.len() && j < s.len());
        assert(t[i] == s[i] && t[j] == s[j]);
    }
}

/// Registering keeps the entries well formed.
pub proof fn lemma_registered_ok(s: Seq<ContributionView>, c: ContributionView)
    requires
        entries_ok(s),
        c.kind !is Service,
        c.kind is Theme ==> c.kind->Theme_overlay is Object,
    ensures
        entries_ok(registered(s, c)),
{
    match c.kind {
        KindView::Keymap { .. } => {
            lemma_push_layer_ok(s, c);
        },
        KindView::Hook { .. } => {
            lemma_push_layer_ok(s, c);
        },
        KindView::Theme { name, overlay } => {
            rules::lemma_last_place(s, rules::slot_of(c));
            let p = rules::last_place(s, rules::slot_of(c));
            if p >= 0 {
                let merged = theme_merged(s, c)[p];
                assert(rules::slot_of(merged) == rules::slot_of(c));
                lemma_put_ok(s, merged);
                assert(theme_merged(s, c) =~= rules::put(s, merged));
            } else {
                lemma_put_ok(s, c);
            }
        },
        KindView::Settings(_) => {
            let merged = ContributionView {
                scope: c.scope,
                kind: KindView::Settings(
                    rules::settings_over(
                        standing_settings(s, rules::slot_of(c)),
                        c.kind->Settings_0,
                    ),
                ),
            };
            lemma_put_ok(s, merged);
        },
        KindView::UiMount { .. } => {
            lemma_put_ok(s, slotted(c));
        },
        _ => {
            lemma_put_ok(s, c);
        },
    }
}

// ---------- snapshot order ----------

/// The numeral of `n` in exactly `width` digits.
pub open spec fn fixed_digits(n: nat, width: nat) -> Seq<char>
    decreases width,
{
    if width == 0 {
        Seq::empty()
    } else {
        fixed_digits(n / 10, (width - 1) as nat).push(text::digit(n % 10))
    }
}

pub open spec fn sort_name(kind: KindView) -> Seq<char> {
    match kind {
        KindView::Command { name, .. } => name,
        KindView::Tool { name, .. } => name,
        KindView::Service { key, .. } => key.name,
        KindView::Keymap { key, .. } => key,
        KindView::Theme { name, .. } => name,
        KindView::ProjectionStage { slot, .. } => slot,
        KindView::UiMount { name, .. } => name,
        KindView::Guard { name, .. } => name,
        KindView::Settings(_) => Seq::empty(),
        KindView::Hook { name, .. } => name,
    }
}

pub open spec fn sort_number(kind: KindView) -> Seq<char> {
    match kind {
        KindView::ProjectionStage { ordering, .. } => fixed_digits(ordering as nat, 10),
        _ => Seq::empty(),
    }
}

/// Snapshots are ordered by scope, kind tag, name, ordering and encoding.
pub open spec fn snapshot_order() -> spec_fn(ContributionView) -> Seq<Seq<char>> {
    |c: ContributionView|
        Seq::<Seq<char>>::empty().push(services::scope_text(c.scope)).push(
            contribution::tag(c.kind),
        ).push(sort_name(c.kind)).push(sort_number(c.kind)).push(
            json::json_text(contribution::kind_json(c.kind)),
        )
}

/// A publication as a contribution.
pub open spec fn as_contribution(e: EntryView) -> ContributionView {
    ContributionView {
        scope: e.key.scope,
        kind: KindView::Service { key: e.key, provider: e.provider, deps: e.deps },
    }
}

pub open spec fn as_contributions(s: Seq<EntryView>) -> Seq<ContributionView> {
    s.map_values(|e: EntryView| as_contribution(e))
}

/// Every registration of the registry.
pub open spec fn everything(v: RegistryView) -> Seq<ContributionView> {
    v.entries + as_contributions(order::ordered(v.services, services::entry_order()))
}

/// The registry's whole state in snapshot order.
pub open spec fn snapshot_of(v: RegistryView) -> Seq<ContributionView> {
    order::ordered(everything(v), snapshot_order())
}

fn fixed_text(n: u32, width: u32) -> (r: String)
    ensures
        r@ == fixed_digits(n as nat, width as nat),
    decreases width,
{
    if width == 0 {
        let s = String::new();
        assert(s@ =~= Seq::empty());
        return s;
    }
    let mut s = fixed_text(n / 10, width - 1);
    let d = text::decimal_text((n % 10) as u64);
    s.append(d.as_str());
    assert(s@ =~= fixed_digits(n as nat, width as nat));
    s
}

/// The sort key of a contribution.
pub fn snapshot_sort_key(c: &Contribution) -> (r: Vec<String>)
    ensures
        value::views(r@) == snapshot_order()(c@),
{
    let name = match &c.kind {
        ContributionKind::Command(x) => x.name.clone(),
        ContributionKind::Tool(x) => x.name.clone(),
        ContributionKind::Service(x) => x.key.name.clone(),
        ContributionKind::Keymap(x) => x.key.clone(),
        ContributionKind::Theme(x) => x.name.clone(),
        ContributionKind::ProjectionStage(x) => x.slot.clone(),
        ContributionKind::UiMount(x) => x.name.clone(),
        ContributionKind::Guard(x) => x.name.clone(),
        ContributionKind::Settings(_) => String::new(),
        ContributionKind::Hook(x) => x.name.clone(),
    };
    let number = match &c.kind {
        ContributionKind::ProjectionStage(x) => fixed_text(x.ordering, 10),
        _ => String::new(),
    };
    let mut r: Vec<String> = Vec::new();
    r.push(c.scope.text());
    r.push(c.kind.kind_tag().to_owned());
    r.push(name);
    r.push(number);
    r.push(json::render(&c.kind.encode()));
    r
}

/// Puts contributions in snapshot order.
fn in_snapshot_order(list: Vec<Contribution>) -> (r: Vec<Contribution>)
    ensures
        value::views(r@) == order::ordered(value::views(list@), snapshot_order()),
{
    let ghost all = value::views(list@);
    let mut keyed: Vec<Keyed<Contribution>> = Vec::new();
    let mut i: usize = 0;
    assert(order::item_views(keyed@) =~= all.take(0));
    while i < list.len()
        invariant
            i <= list.len(),
            all == value::views(list@),
            order::item_views(keyed@) == all.take(i as int),
            forall|k: int|
                0 <= k < keyed.len() ==> value::views((#[trigger] keyed@[k]).key@)
                    == snapshot_order()(keyed@[k].item@),
        decreases list.len() - i,
    {
        let item = list[i].copy();
        let key = snapshot_sort_key(&item);
        let ghost shown = item@;
        let ghost before = order::item_views(keyed@);
        keyed.push(Keyed { key, item });
        proof {
            assert(order::item_views(keyed@) =~= before.push(shown));
            assert(all.take(i + 1) =~= all.take(i as int).push(all[i as int]));
        }
        i = i + 1;
    }
    assert(all.take(i as int) =~= all);
    order::order_items(keyed, Ghost(snapshot_order()))
}

fn published(p: &Publication) -> (r: Contribution)
    ensures
        r@ == as_contribution(p@),
{
    Contribution {
        scope: p.key.scope.copy(),
        kind: ContributionKind::Service(
            ServiceContribution {
                key: p.key.copy(),
                provider: p.provider.copy(),
                deps: value::copy_vec(&p.deps),
            },
        ),
    }
}

fn push_published(out: &mut Vec<Contribution>, list: &Vec<Publication>)
    ensures
        value::views(final(out)@) == value::views(old(out)@) + as_contributions(
            value::views(list@),
        ),
{
    let ghost start = value::views(out@);
    let ghost all = as_contributions(value::views(list@));
    let mut i: usize = 0;
    assert(start + all.take(0) =~= start);
    while i < list.len()
        invariant
            i <= list.len(),
            all == as_contributions(value::views(list@)),
            value::views(out@) == start + all.take(i as int),
        decreases list.len() - i,
    {
        out.push(published(&list[i]));
        i = i + 1;
        assert(start + all.take(i as int) =~= (start + all.take(i - 1)).push(all[i - 1]));
    }
    assert(all.take(i as int) =~= all);
}

// ---------- registering ----------

/// Merges a theme overlay into the entries.
fn register_theme(entries: &mut Vec<Contribution>, scope: &ScopePath, t: &ThemeContribution, c: &Contribution)
    requires
        entries_ok(value::views(old(entries)@)),
        c.scope@ == scope@,
        c@.kind == (KindView::Theme { name: t.name@, overlay: t.overlay@ }),
        t.overlay@ is Object,
    ensures
        value::views(final(entries)@) == theme_merged(value::views(old(entries)@), c@),
{
    let ghost before = value::views(entries@);
    assert(before.take(entries.len() as int) =~= before);
    match find_entry(entries, c) {
        Some(p) => {
            proof {
                rules::lemma_last_place(before, rules::slot_of(c@));
                assert(before[p as int] == entries@[p as int]@);
                assert(entry_ok(before[p as int]));
                lemma_same_slot_same_layering(before[p as int], c@);
            }
            let mut fields = match &entries[p].kind {
                ContributionKind::Theme(old_theme) => match &old_theme.overlay {
                    Json::Object(f) => {
                        proof {
                            json::lemma_fields_view(f@);
                        }
                        value::copy_vec(f)
                    },
                    _ => Vec::new(),
                },
                _ => Vec::new(),
            };
            match &t.overlay {
                Json::Object(f) => {
                    proof {
                        json::lemma_fields_view(f@);
                    }
                    json::merge_fields(&mut fields, f);
                },
                _ => {},
            }
            let merged = Contribution {
                scope: scope.copy(),
                kind: ContributionKind::Theme(
                    ThemeContribution { name: t.name.clone(), overlay: json::record(fields) },
                ),
            };
            entries.set(p, merged);
        },
        None => {
            entries.push(c.copy());
        },
    }
}

/// The last entry in the slot of `c`.
fn find_entry(entries: &Vec<Contribution>, c: &Contribution) -> (r: Option<usize>)
    ensures
        match r {
            Some(p) => p < entries.len() && rules::last_place(
                value::views(entries@),
                rules::slot_of(c@),
            ) == p,
            None => rules::last_place(value::views(entries@), rules::slot_of(c@)) == -1,
        },
{
    assert(value::views(entries@).take(entries.len() as int) =~= value::views(entries@));
    rules::find_last(entries.as_slice(), entries.len(), c)
}

/// Registers one non-service contribution.
fn register(entries: &mut Vec<Contribution>, c: &Contribution)
    requires
        entries_ok(value::views(old(entries)@)),
        c@.kind !is Service,
        c@.kind is Theme ==> c@.kind->Theme_overlay is Object,
    ensures
        value::views(final(entries)@) == registered(value::views(old(entries)@), c@),
        entries_ok(value::views(final(entries)@)),
{
    let ghost before = value::views(entries@);
    proof {
        lemma_registered_ok(before, c@);
    }
    match &c.kind {
        ContributionKind::Keymap(_) => {
            entries.push(c.copy());
        },
        ContributionKind::Hook(_) => {
            entries.push(c.copy());
        },
        ContributionKind::Theme(t) => {
            register_theme(entries, &c.scope, t, c);
        },
        ContributionKind::Settings(s) => {
            let base = match find_entry(entries, c) {
                Some(p) => {
                    proof {
                        rules::lemma_last_place(before, rules::slot_of(c@));
                        assert(before[p as int] == entries@[p as int]@);
                        lemma_same_slot_same_layering(before[p as int], c@);
                    }
                    match &entries[p].kind {
                        ContributionKind::Settings(b) => b.copy(),
                        _ => SettingsContribution { provider: None, approval: None },
                    }
                },
                None => SettingsContribution { provider: None, approval: None },
            };
            let merged = rules::merge_settings(base, s);
            rules::put_entry(
                entries,
                Contribution { scope: c.scope.copy(), kind: ContributionKind::Settings(merged) },
            );
        },
        ContributionKind::UiMount(u) => {
            let mounted = slot_mount(u);
            rules::put_entry(
                entries,
                Contribution { scope: c.scope.copy(), kind: ContributionKind::UiMount(mounted) },
            );
        },
        _ => {
            rules::put_entry(entries, c.copy());
        },
    }
}

/// A mount with its slot given.
fn slot_mount(u: &UiMountContribution) -> (r: UiMountContribution)
    ensures
        r.name@ == u.name@,
        r.component@ == u.component@,
        value::opt_view(r.slot) == Some(
            match value::opt_view(u.slot) {
                Some(t) => t,
                None => "main"@,
            },
        ),
{
    let slot = match &u.slot {
        Some(t) => t.clone(),
        None => "main".to_owned(),
    };
    UiMountContribution { name: u.name.clone(), component: u.component.clone(), slot: Some(slot) }
}

/// Displaces the plan's non-service contributions.
fn displace(entries: &mut Vec<Contribution>, removed: &Vec<Contribution>)
    requires
        entries_ok(value::views(old(entries)@)),
    ensures
        value::views(final(entries)@) == displaced(
            value::views(old(entries)@),
            value::views(removed@),
        ),
        entries_ok(value::views(final(entries)@)),
{
    let ghost before = value::views(entries@);
    let ghost all = value::views(removed@);
    let mut i: usize = 0;
    assert(all.take(0) =~= Seq::empty());
    while i < removed.len()
        invariant
            i <= removed.len(),
            all == value::views(removed@),
            value::views(entries@) == displaced(before, all.take(i as int)),
            entries_ok(value::views(entries@)),
        decreases removed.len() - i,
    {
        proof {
            assert(all.take(i + 1).drop_last() =~= all.take(i as int));
            assert(all.take(i + 1).last() == removed@[i as int]@);
            lemma_cleared(value::views(entries@), rules::slot_of(removed@[i as int]@));
        }
        match &removed[i].kind {
            ContributionKind::Service(_) => {},
            ContributionKind::Settings(_) => {},
            _ => {
                rules::clear_slot(entries, &removed[i]);
            },
        }
        i = i + 1;
    }
    assert(all.take(i as int) =~= all);
}

/// Whether the plan displaces the service of a staged contribution.
fn plan_displaces(removed: &Vec<Contribution>, c: &Contribution) -> (r: bool)
    requires
        c@.kind is Service,
    ensures
        r == plan_names(value::views(removed@), c@.kind->Service_key),
{
    let ghost all = value::views(removed@);
    let mut i: usize = 0;
    while i < removed.len()
        invariant
            i <= removed.len(),
            all == value::views(removed@),
            c@.kind is Service,
            forall|k: int|
                0 <= k < i ==> rules::slot_of(#[trigger] all[k]) != rules::slot_of(c@),
        decreases removed.len() - i,
    {
        assert(all[i as int] == removed@[i as int]@);
        if rules::same_slot(&removed[i], c) {
            assert(rules::slot_of(all[i as int]) == (Slot::Service {
                key: c@.kind->Service_key,
            }));
            return true;
        }
        i = i + 1;
    }
    false
}

// ---------- scopes ----------

/// The entries of a scope, or those of all other scopes.
pub open spec fn entries_in(
    s: Seq<ContributionView>,
    scope: Seq<Seq<char>>,
    want: bool,
) -> Seq<ContributionView>
    decreases s.len(),
{
    if s.len() == 0 {
        s
    } else if (s.last().scope == scope) == want {
        entries_in(s.drop_last(), scope, want).push(s.last())
    } else {
        entries_in(s.drop_last(), scope, want)
    }
}

/// The dependents outside `scope` among `edges`.
pub open spec fn outside(edges: Seq<DependencyView>, scope: Seq<Seq<char>>) -> Seq<DependencyView>
    decreases edges.len(),
{
    if edges.len() == 0 {
        edges
    } else if edges.last().key.scope != scope {
        outside(edges.drop_last(), scope).push(edges.last())
    } else {
        outside(edges.drop_last(), scope)
    }
}

/// The dependents outside `scope` of the services that `list` publishes in it.
pub open spec fn outside_dependents(
    s: Seq<EntryView>,
    list: Seq<EntryView>,
    scope: Seq<Seq<char>>,
) -> Seq<DependencyView>
    decreases list.len(),
{
    if list.len() == 0 {
        Seq::empty()
    } else {
        let rest = outside_dependents(s, list.drop_last(), scope);
        if list.last().key.scope == scope {
            rest + outside(services::dependents(s, list.last().key), scope)
        } else {
            rest
        }
    }
}

/// The dependents that would be stranded by removing `scope`, service by
/// service in the order of the displayed keys.
pub open spec fn stranded(s: Seq<EntryView>, scope: Seq<Seq<char>>) -> Seq<DependencyView> {
    outside_dependents(s, order::ordered(s, services::entry_order()), scope)
}

/// Why `remove_scope` refuses.
pub open spec fn removal_error(
    v: RegistryView,
    scope: Seq<Seq<char>>,
    force: bool,
) -> Option<ScopeErrorView> {
    if !force && stranded(v.services, scope).len() > 0 {
        Some(
            ScopeErrorView::DependentsRemain { scope, dependents: stranded(v.services, scope) },
        )
    } else {
        None
    }
}

/// The registry without `scope` and the services that fall with it.
pub open spec fn scope_removed(v: RegistryView, scope: Seq<Seq<char>>) -> RegistryView {
    RegistryView {
        entries: entries_in(v.entries, scope, false),
        services: services::pick(v.services, services::falling(v.services, scope), false),
    }
}

/// The services that fall with `scope`.
pub open spec fn fallen(v: RegistryView, scope: Seq<Seq<char>>) -> Seq<EntryView> {
    services::pick(v.services, services::falling(v.services, scope), true)
}

/// All contributions that go with `scope`.
pub open spec fn going(v: RegistryView, scope: Seq<Seq<char>>) -> Seq<ContributionView> {
    as_contributions(fallen(v, scope)) + entries_in(v.entries, scope, true)
}

/// The other scopes among those of `list`.
pub open spec fn other_scopes(list: Seq<EntryView>, scope: Seq<Seq<char>>) -> Seq<Seq<Seq<char>>>
    decreases list.len(),
{
    if list.len() == 0 {
        Seq::empty()
    } else if list.last().key.scope != scope {
        other_scopes(list.drop_last(), scope).push(list.last().key.scope)
    } else {
        other_scopes(list.drop_last(), scope)
    }
}

pub open spec fn scope_order() -> spec_fn(Seq<Seq<char>>) -> Seq<Seq<char>> {
    |p: Seq<Seq<char>>| Seq::<Seq<char>>::empty().push(services::scope_text(p))
}

/// The sequence without repetitions of a neighbour.
pub open spec fn deduped<A>(s: Seq<A>) -> Seq<A>
    decreases s.len(),
{
    if s.len() <= 1 {
        s
    } else if s[s.len() - 2] == s.last() {
        deduped(s.drop_last())
    } else {
        deduped(s.drop_last()).push(s.last())
    }
}

/// The other scopes that lose services with `scope`, each named once, in
/// display order.
pub open spec fn cascade(v: RegistryView, scope: Seq<Seq<char>>) -> Seq<Seq<Seq<char>>> {
    deduped(order::ordered(other_scopes(fallen(v, scope), scope), scope_order()))
}

/// The entries of `scope` that hold no overlay, and all of other scopes.
pub open spec fn without_overlays(
    s: Seq<ContributionView>,
    scope: Seq<Seq<char>>,
) -> Seq<ContributionView>
    decreases s.len(),
{
    if s.len() == 0 {
        s
    } else if s.last().scope == scope && (s.last().kind is Settings || s.last().kind is Theme) {
        without_overlays(s.drop_last(), scope)
    } else {
        without_overlays(s.drop_last(), scope).push(s.last())
    }
}

/// `c` is an overlay of `scope` that can be merged.
pub open spec fn overlays(c: ContributionView, scope: Seq<Seq<char>>) -> bool {
    c.scope == scope && (c.kind is Settings || (c.kind is Theme && c.kind->Theme_overlay is Object))
}

/// The entries with the overlays among `list` merged in, one after the other.
pub open spec fn overlaid(
    s: Seq<ContributionView>,
    scope: Seq<Seq<char>>,
    list: Seq<ContributionView>,
) -> Seq<ContributionView>
    decreases list.len(),
{
    if list.len() == 0 {
        s
    } else {
        let rest = overlaid(s, scope, list.drop_last());
        if overlays(list.last(), scope) {
            registered(rest, list.last())
        } else {
            rest
        }
    }
}

/// The entries left by a removal of named contributions.
pub open spec fn removed_from(
    s: Seq<ContributionView>,
    removals: Seq<ContributionView>,
) -> Seq<ContributionView>
    decreases removals.len(),
{
    if removals.len() == 0 {
        s
    } else {
        rules::cleared(
            removed_from(s, removals.drop_last()),
            rules::slot_of(removals.last()),
        )
    }
}

/// The refusal of the first service among the removals.
pub open spec fn service_removal_error(removals: Seq<ContributionView>) -> Option<ScopeErrorView>
    decreases removals.len(),
{
    if removals.len() == 0 {
        None
    } else if service_removal_error(removals.drop_last()) is Some {
        service_removal_error(removals.drop_last())
    } else if removals.last().kind is Service {
        Some(
            ScopeErrorView::InvalidContribution {
                scope: removals.last().scope,
                reason: "remove_contributions is for non-service contributions; services are removed through the shared service registry"@,
            },
        )
    } else {
        None
    }
}

proof fn lemma_service_removal_stays(removals: Seq<ContributionView>, n: int)
    requires
        0 <= n <= removals.len(),
        service_removal_error(removals.take(n)) is Some,
    ensures
        service_removal_error(removals) == service_removal_error(removals.take(n)),
    decreases removals.len() - n,
{
    if n == removals.len() {
        assert(removals.take(n) =~= removals);
    } else {
        assert(removals.take(n + 1).drop_last() =~= removals.take(n));
        lemma_service_removal_stays(removals, n + 1);
    }
}

/// A selection of entries keeps them well formed.
proof fn lemma_entries_in_ok(s: Seq<ContributionView>, scope: Seq<Seq<char>>, want: bool)
    requires
        entries_ok(s),
    ensures
        entries_ok(entries_in(s, scope, want)),
        forall|i: int|
            0 <= i < entries_in(s, scope, want).len() ==> s.contains(
                #[trigger] entries_in(s, scope, want)[i],
            ),
    decreases s.len(),
{
    if s.len() > 0 {
        let t = s.drop_last();
        lemma_prefix_ok(s);
        lemma_entries_in_ok(t, scope, want);
        lemma_grow_ok(s, entries_in(t, scope, want), entries_in(s, scope, want));
    }
}

proof fn lemma_without_overlays_ok(s: Seq<ContributionView>, scope: Seq<Seq<char>>)
    requires
        entries_ok(s),
    ensures
        entries_ok(without_overlays(s, scope)),
        forall|i: int|
            0 <= i < without_overlays(s, scope).len() ==> s.contains(
                #[trigger] without_overlays(s, scope)[i],
            ),
    decreases s.len(),
{
    if s.len() > 0 {
        let t = s.drop_last();
        lemma_prefix_ok(s);
        lemma_without_overlays_ok(t, scope);
        lemma_grow_ok(s, without_overlays(t, scope), without_overlays(s, scope));
    }
}

proof fn lemma_prefix_ok(s: Seq<ContributionView>)
    requires
        entries_ok(s),
        s.len() > 0,
    ensures
        entries_ok(s.drop_last()),
{
    let t = s.drop_last();
    assert forall|i: int, j: int|
        0 <= i < t.len() && 0 <= j < t.len() && rules::slot_of(#[trigger] t[i]) == rules::slot_of(
            #[trigger] t[j],
        ) && !layers(t[i].kind) implies i == j by {
        assert(t[i] == s[i] && t[j] == s[j]);
    }
    assert forall|i: int| 0 <= i < t.len() implies entry_ok(#[trigger] t[i]) by {
        assert(t[i] == s[i]);
    }
}

/// A selection from all but the last entry, with the last added or not.
proof fn lemma_grow_ok(
    s: Seq<ContributionView>,
    rest: Seq<ContributionView>,
    all: Seq<ContributionView>,
)
    requires
        entries_ok(s),
        s.len() > 0,
        entries_ok(rest),
        forall|i: int| 0 <= i < rest.len() ==> s.drop_last().contains(#[trigger] rest[i]),
        all == rest || all == rest.push(s.last()),
    ensures
        entries_ok(all),
        forall|i: int| 0 <= i < all.len() ==> s.contains(#[trigger] all[i]),
{
    let t = s.drop_last();
    assert forall|i: int| 0 <= i < all.len() implies s.contains(#[trigger] all[i]) && entry_ok(
        all[i],
    ) by {
        if i < rest.len() {
            assert(all[i] == rest[i]);
            let k = choose|k: int| 0 <= k < t.len() && t[k] == rest[i];
            assert(s[k] == rest[i]);
            assert(entry_ok(rest[i]));
        } else {
            assert(s[s.len() - 1] == all[i]);
        }
    }
    assert forall|i: int, j: int|
        0 <= i < all.len() && 0 <= j < all.len() && rules::slot_of(#[trigger] all[i])
            == rules::slot_of(#[trigger] all[j]) && !layers(all[i].kind) implies i == j by {
        if i < rest.len() && j < rest.len() {
            assert(all[i] == rest[i] && all[j] == rest[j]);
        } else if i < rest.len() || j < rest.len() {
            let m = if i < rest.len() {
                i
            } else {
                j
            };
            assert(all[m] == rest[m]);
            let k = choose|k: int| 0 <= k < t.len() && t[k] == rest[m];
            assert(s[k] == rest[m]);
            lemma_same_slot_same_layering(s[k], s[s.len() - 1]);
            assert(rules::slot_of(s[k]) == rules::slot_of(s[s.len() - 1]));
        }
    }
}

/// The neighbours-deduplicated scopes in display order.
fn ordered_scopes(list: Vec<ScopePath>) -> (r: Vec<ScopePath>)
    ensures
        value::views(r@) == deduped(order::ordered(value::views(list@), scope_order())),
{
    let ghost all = value::views(list@);
    let mut keyed: Vec<Keyed<ScopePath>> = Vec::new();
    let mut i: usize = 0;
    assert(order::item_views(keyed@) =~= all.take(0));
    while i < list.len()
        invariant
            i <= list.len(),
            all == value::views(list@),
            order::item_views(keyed@) == all.take(i as int),
            forall|k: int|
                0 <= k < keyed.len() ==> value::views((#[trigger] keyed@[k]).key@)
                    == scope_order()(keyed@[k].item@),
        decreases list.len() - i,
    {
        let item = list[i].copy();
        let mut key: Vec<String> = Vec::new();
        key.push(item.text());
        let ghost shown = item@;
        let ghost before = order::item_views(keyed@);
        keyed.push(Keyed { key, item });
        proof {
            assert(order::item_views(keyed@) =~= before.push(shown));
            assert(all.take(i + 1) =~= all.take(i as int).push(all[i as int]));
        }
        i = i + 1;
    }
    assert(all.take(i as int) =~= all);
    let sorted = order::order_items(keyed, Ghost(scope_order()));
    let ghost line = value::views(sorted@);
    let mut out: Vec<ScopePath> = Vec::new();
    let mut k: usize = 0;
    assert(line.take(0) =~= Seq::empty());
    while k < sorted.len()
        invariant
            k <= sorted.len(),
            line == value::views(sorted@),
            value::views(out@) == deduped(line.take(k as int)),
        decreases sorted.len() - k,
    {
        proof {
            assert(line.take(k + 1).drop_last() =~= line.take(k as int));
            assert(line.take(k + 1).last() == sorted@[k as int]@);
            if k > 0 {
                assert(line.take(k + 1)[k - 1] == sorted@[k - 1]@);
            }
        }
        let again = k > 0 && sorted[k - 1].same(&sorted[k]);
        if !again {
            out.push(sorted[k].copy());
        }
        k = k + 1;
        assert(value::views(out@) =~= deduped(line.take(k as int)));
    }
    assert(line.take(k as int) =~= line);
    out
}

/// Why a replacement is refused: it carries another name, the slot is free,
/// or the previous holder is not the current one.
pub open spec fn replacement_error(
    v: RegistryView,
    c: ContributionView,
    asked: Seq<char>,
    misnamed: Seq<char>,
    missing: Seq<char>,
    previous_holder: Seq<char>,
) -> Option<ScopeErrorView> {
    if rules::conflict_name(c) != asked {
        Some(ScopeErrorView::InvalidInput(misnamed))
    } else {
        match rules::latest(v.entries, rules::slot_of(c)) {
            None => Some(ScopeErrorView::InvalidInput(missing)),
            Some(e) => if rules::holder_name(e) != previous_holder {
                Some(
                    rules::conflict_view(
                        c,
                        asked,
                        rules::holder_name(e),
                        rules::holder_name(c),
                    ),
                )
            } else {
                None
            },
        }
    }
}

/// The registry with `c` put into its slot.
pub open spec fn with_entry(v: RegistryView, c: ContributionView) -> RegistryView {
    RegistryView { entries: rules::put(v.entries, c), services: v.services }
}

pub open spec fn hook_order() -> spec_fn(ContributionView) -> Seq<Seq<char>> {
    |c: ContributionView|
        Seq::<Seq<char>>::empty().push(services::scope_text(c.scope)).push(sort_name(c.kind))
}

/// The hooks of a kind among the entries.
pub open spec fn hooks_among(s: Seq<ContributionView>, kind: HookKind) -> Seq<ContributionView>
    decreases s.len(),
{
    if s.len() == 0 {
        s
    } else {
        let rest = hooks_among(s.drop_last(), kind);
        match s.last().kind {
            KindView::Hook { hook, .. } => if hook == kind {
                rest.push(s.last())
            } else {
                rest
            },
            _ => rest,
        }
    }
}

/// Hooks of a kind occur as often as they are registered, and nothing else
/// occurs.
pub proof fn lemma_hooks_among(s: Seq<ContributionView>, kind: HookKind, c: ContributionView)
    ensures
        hooks_among(s, kind).to_multiset().count(c) == if c.kind matches KindView::Hook {
            hook,
            ..
        } && hook == kind {
            s.to_multiset().count(c)
        } else {
            0
        },
    decreases s.len(),
{
    broadcast use vstd::seq_lib::group_to_multiset_ensures;

    if s.len() > 0 {
        lemma_hooks_among(s.drop_last(), kind, c);
        assert(s =~= s.drop_last().push(s.last()));
    }
}

impl ContributionRegistry {
    /// What every operation keeps.
    pub open spec fn wf(&self) -> bool {
        entries_ok(self@.entries) && services::well_formed(self@.services)
    }

    /// A registry over a service graph, with nothing else registered.
    pub fn new(services: ServiceRegistry) -> (r: Self)
        requires
            services.wf(),
        ensures
            r.wf(),
            r@.entries == Seq::<ContributionView>::empty(),
            r@.services == services@,
    {
        ContributionRegistry { entries: Vec::new(), services }
    }

    /// The service graph.
    pub fn services(&self) -> (r: &ServiceRegistry)
        ensures
            r@ == self@.services,
    {
        &self.services
    }

    /// The service graph, for the host that publishes into it.
    pub fn services_mut(&mut self) -> (r: &mut ServiceRegistry)
        ensures
            r@ == old(self)@.services,
            final(self)@.entries == old(self)@.entries,
            final(self)@.services == final(r)@,
    {
        &mut self.services
    }

    /// Checks a staged set against the registrations and itself.
    pub fn validate(&self, staged: &[Contribution]) -> (r: Result<(), ScopeError>)
        requires
            self.wf(),
        ensures
            value::failure(r) == rules::set_violation(
                self@.entries,
                self@.services,
                value::views(staged@),
            ),
    {
        rules::validate_inner(&self.entries, &self.services, staged)
    }

    /// Checks a staged set as if the plan's contributions were already gone.
    pub fn validate_planned(&self, staged: &[Contribution], plan: &OverridePlan) -> (r: Result<
        (),
        ScopeError,
    >)
        requires
            self.wf(),
        ensures
            value::failure(r) == rules::set_violation(
                displaced(self@.entries, value::views(plan.removed@)),
                displaced_services(self@.services, value::views(plan.removed@)),
                value::views(staged@),
            ),
    {
        if plan.is_empty() {
            assert(value::views(plan.removed@) =~= Seq::empty());
            return self.validate(staged);
        }
        let mut entries = rules::copy_entries(self.entries.as_slice());
        displace(&mut entries, &plan.removed);
        let mut graph = self.services.duplicate();
        let ghost all = value::views(plan.removed@);
        let mut i: usize = 0;
        assert(all.take(0) =~= Seq::empty());
        while i < plan.removed.len()
            invariant
                i <= plan.removed.len(),
                all == value::views(plan.removed@),
                graph.wf(),
                graph@ == displaced_services(self@.services, all.take(i as int)),
            decreases plan.removed.len() - i,
        {
            proof {
                assert(all.take(i + 1).drop_last() =~= all.take(i as int));
                assert(all.take(i + 1).last() == plan.removed@[i as int]@);
            }
            match &plan.removed[i].kind {
                ContributionKind::Service(s) => {
                    graph.remove_forced(&s.key);
                },
                _ => {},
            }
            i = i + 1;
        }
        assert(all.take(i as int) =~= all);
        rules::validate_inner(&entries, &graph, staged)
    }

    /// Applies a staged set to `scope`, all of it or nothing.
    pub fn apply(&mut self, scope: &ScopePath, staged: &[Contribution]) -> (r: Result<
        (),
        ScopeError,
    >)
        requires
            old(self).wf(),
        ensures
            final(self).wf(),
            match r {
                Ok(_) => stray_error(value::views(staged@), scope@) is None && steps(
                    old(self)@,
                    Seq::empty(),
                    value::views(staged@),
                ) == Some(final(self)@),
                Err(e) => final(self)@ == old(self)@ && (stray_error(
                    value::views(staged@),
                    scope@,
                ) == Some(e@) || (stray_error(value::views(staged@), scope@) is None && steps(
                    old(self)@,
                    Seq::empty(),
                    value::views(staged@),
                ) is None && set_refused(
                    old(self)@,
                    Seq::empty(),
                    value::views(staged@),
                    e@,
                ))),
            },
    {
        let plan = OverridePlan { removed: Vec::new() };
        assert(value::views(plan.removed@) =~= Seq::<ContributionView>::empty());
        assert(start(self@, Seq::empty()) == self@);
        self.apply_planned(scope, staged, &plan)
    }

    /// Applies a staged set to `scope` after displacing the plan's
    /// contributions, all of it or nothing. A displaced service leaves the
    /// graph only where a staged one takes its key.
    pub fn apply_planned(
        &mut self,
        scope: &ScopePath,
        staged: &[Contribution],
        plan: &OverridePlan,
    ) -> (r: Result<(), ScopeError>)
        requires
            old(self).wf(),
        ensures
            final(self).wf(),
            match r {
                Ok(_) => stray_error(value::views(staged@), scope@) is None && steps(
                    start(old(self)@, value::views(plan.removed@)),
                    value::views(plan.removed@),
                    value::views(staged@),
                ) == Some(final(self)@),
                Err(e) => final(self)@ == old(self)@ && (stray_error(
                    value::views(staged@),
                    scope@,
                ) == Some(e@) || (stray_error(value::views(staged@), scope@) is None && steps(
                    start(old(self)@, value::views(plan.removed@)),
                    value::views(plan.removed@),
                    value::views(staged@),
                ) is None && set_refused(
                    start(old(self)@, value::views(plan.removed@)),
                    value::views(plan.removed@),
                    value::views(staged@),
                    e@,
                ))),
            },
    {
        let ghost all = value::views(staged@);
        let ghost removed = value::views(plan.removed@);
        let ghost v0 = start(self@, removed);
        let mut i: usize = 0;
        assert(all.take(0) =~= Seq::empty());
        while i < staged.len()
            invariant
                i <= staged@.len(),
                all == value::views(staged@),
                stray_error(all.take(i as int), scope@) is None,
                *self == *old(self),
                old(self).wf(),
            decreases staged@.len() - i,
        {
            let c = &staged[i];
            proof {
                assert(all.take(i + 1).drop_last() =~= all.take(i as int));
                assert(all.take(i + 1).last() == c@);
            }
            if !c.scope.same(scope) {
                let named = c.scope.text();
                let own = scope.text();
                proof {
                    lemma_stray_error_stays(all, scope@, i + 1);
                }
                return Err(
                    ScopeError::InvalidContribution {
                        scope: c.scope.copy(),
                        reason: text::cat5(
                            "contribution staged for scope `",
                            named.as_str(),
                            "` while applying to `",
                            own.as_str(),
                            "`",
                        ),
                    },
                );
            }
            i = i + 1;
        }
        assert(all.take(i as int) =~= all);
        let mut entries = rules::copy_entries(self.entries.as_slice());
        displace(&mut entries, &plan.removed);
        let mut graph = self.services.duplicate();
        let mut n: usize = 0;
        while n < staged.len()
            invariant
                n <= staged@.len(),
                all == value::views(staged@),
                removed == value::views(plan.removed@),
                v0 == start(old(self)@, removed),
                stray_error(all, scope@) is None,
                *self == *old(self),
                old(self).wf(),
                graph.wf(),
                entries_ok(value::views(entries@)),
                steps(v0, removed, all.take(n as int)) == Some(
                    RegistryView { entries: value::views(entries@), services: graph@ },
                ),
            decreases staged@.len() - n,
        {
            let c = &staged[n];
            let ghost w = RegistryView { entries: value::views(entries@), services: graph@ };
            proof {
                assert(all.take(n + 1).drop_last() =~= all.take(n as int));
                assert(all.take(n + 1).last() == c@);
                assert(all[n as int] == c@);
            }
            match &c.kind {
                ContributionKind::Service(s) => {
                    if plan_displaces(&plan.removed, c) {
                        graph.remove_forced(&s.key);
                    }
                    let ghost base = graph@;
                    assert(base == graph_base(w.services, removed, s.key@));
                    match graph.publish_with_deps(
                        s.key.copy(),
                        s.provider.copy(),
                        s.deps.as_slice(),
                    ) {
                        Err(e) => {
                            let error = ScopeError::Service(e);
                            proof {
                                assert(refuses(w, removed, c@, error@));
                                lemma_refused_has_no_step(w, removed, c@, error@);
                                lemma_steps_stop(v0, removed, all, n + 1);
                                assert(set_refused(v0, removed, all, error@));
                            }
                            return Err(error);
                        },
                        Ok(_) => {},
                    }
                },
                ContributionKind::Theme(t) => {
                    if !t.overlay.is_object() {
                        let error = ScopeError::InvalidContribution {
                            scope: c.scope.copy(),
                            reason: "theme overlay must be a JSON object (R-19 validated overlay)".to_owned(),
                        };
                        proof {
                            assert(refuses(w, removed, c@, error@));
                            lemma_steps_stop(v0, removed, all, n + 1);
                            assert(set_refused(v0, removed, all, error@));
                        }
                        return Err(error);
                    }
                    register(&mut entries, c);
                },
                _ => {
                    register(&mut entries, c);
                },
            }
            n = n + 1;
        }
        assert(all.take(n as int) =~= all);
        self.entries = entries;
        self.services = graph;
        Ok(())
    }

    /// The stranded dependents of a scope removal.
    fn stranded_by(&self, scope: &ScopePath) -> (r: Vec<ServiceDependency>)
        ensures
            value::views(r@) == stranded(self@.services, scope@),
    {
        let list = self.services.snapshot();
        let ghost all = value::views(list@);
        let mut out: Vec<ServiceDependency> = Vec::new();
        let mut i: usize = 0;
        assert(all.take(0) =~= Seq::empty());
        while i < list.len()
            invariant
                i <= list.len(),
                all == value::views(list@),
                value::views(out@) == outside_dependents(
                    self@.services,
                    all.take(i as int),
                    scope@,
                ),
            decreases list.len() - i,
        {
            proof {
                assert(all.take(i + 1).drop_last() =~= all.take(i as int));
                assert(all.take(i + 1).last() == list@[i as int]@);
            }
            if list[i].key.scope.same(scope) {
                let edges = self.services.dependents_of(&list[i].key);
                let ghost line = value::views(edges@);
                let ghost before = value::views(out@);
                let mut k: usize = 0;
                assert(line.take(0) =~= Seq::empty());
                assert(before + outside(line.take(0), scope@) =~= before);
                while k < edges.len()
                    invariant
                        k <= edges.len(),
                        line == value::views(edges@),
                        value::views(out@) == before + outside(line.take(k as int), scope@),
                    decreases edges.len() - k,
                {
                    proof {
                        assert(line.take(k + 1).drop_last() =~= line.take(k as int));
                        assert(line.take(k + 1).last() == edges@[k as int]@);
                    }
                    if !edges[k].key.scope.same(scope) {
                        out.push(edges[k].copy());
                    }
                    k = k + 1;
                    assert(value::views(out@) =~= before + outside(line.take(k as int), scope@));
                }
                assert(line.take(k as int) =~= line);
            }
            i = i + 1;
        }
        assert(all.take(i as int) =~= all);
        out
    }

    /// Removes every contribution of `scope`. A service of it with dependents
    /// in other scopes is refused unless forced, and then takes its
    /// dependents along, directly and indirectly.
    pub fn remove_scope(&mut self, scope: &ScopePath, force: bool) -> (r: Result<
        RemovedSet,
        ScopeError,
    >)
        requires
            old(self).wf(),
        ensures
            final(self).wf(),
            value::failure(r) == removal_error(old(self)@, scope@, force),
            match r {
                Ok(set) => {
                    &&& final(self)@ == scope_removed(old(self)@, scope@)
                    &&& value::views(set.contributions@) == order::ordered(
                        going(old(self)@, scope@),
                        snapshot_order(),
                    )
                    &&& value::views(set.cascaded_scopes@) == cascade(old(self)@, scope@)
                },
                Err(_) => final(self)@ == old(self)@,
            },
    {
        let dependents = self.stranded_by(scope);
        if dependents.len() > 0 && !force {
            return Err(ScopeError::DependentsRemain { scope: scope.copy(), dependents });
        }
        let ghost v = self@;
        let marks = self.services.mark_falling(scope);
        let taken = self.services.take_marked(&marks);
        let mut list: Vec<Contribution> = Vec::new();
        push_published(&mut list, &taken);
        assert(value::views(list@) =~= as_contributions(fallen(v, scope@)));
        let mut lost: Vec<ScopePath> = Vec::new();
        let ghost gone = value::views(taken@);
        let mut t: usize = 0;
        assert(gone.take(0) =~= Seq::empty());
        while t < taken.len()
            invariant
                t <= taken.len(),
                gone == value::views(taken@),
                value::views(lost@) == other_scopes(gone.take(t as int), scope@),
            decreases taken.len() - t,
        {
            proof {
                assert(gone.take(t + 1).drop_last() =~= gone.take(t as int));
                assert(gone.take(t + 1).last() == taken@[t as int]@);
            }
            if !taken[t].key.scope.same(scope) {
                lost.push(taken[t].key.scope.copy());
            }
            t = t + 1;
        }
        assert(gone.take(t as int) =~= gone);
        let mut kept: Vec<Contribution> = Vec::new();
        let ghost base = value::views(list@);
        let mut i: usize = 0;
        assert(v.entries.take(0) =~= Seq::empty());
        assert(base + entries_in(v.entries.take(0), scope@, true) =~= base);
        while i < self.entries.len()
            invariant
                i <= self.entries.len(),
                v.entries == value::views(self.entries@),
                value::views(kept@) == entries_in(v.entries.take(i as int), scope@, false),
                value::views(list@) == base + entries_in(v.entries.take(i as int), scope@, true),
            decreases self.entries.len() - i,
        {
            let c = &self.entries[i];
            proof {
                assert(v.entries[i as int] == c@);
                assert(v.entries.take(i + 1).drop_last() =~= v.entries.take(i as int));
                assert(v.entries.take(i + 1).last() == c@);
            }
            let ghost line = value::views(list@);
            if c.scope.same(scope) {
                list.push(c.copy());
                assert(value::views(list@) =~= line.push(c@));
            } else {
                kept.push(c.copy());
            }
            i = i + 1;
            assert(value::views(list@) =~= base + entries_in(
                v.entries.take(i as int),
                scope@,
                true,
            ));
        }
        proof {
            assert(v.entries.take(i as int) =~= v.entries);
            lemma_entries_in_ok(v.entries, scope@, false);
        }
        self.entries = kept;
        let contributions = in_snapshot_order(list);
        let cascaded_scopes = ordered_scopes(lost);
        Ok(RemovedSet { contributions, cascaded_scopes })
    }

    /// Removes the named non-service contributions. Unknown ones are skipped;
    /// a service among them refuses the whole removal.
    pub fn remove_contributions(&mut self, removals: &[Contribution]) -> (r: Result<
        (),
        ScopeError,
    >)
        requires
            old(self).wf(),
        ensures
            final(self).wf(),
            value::failure(r) == service_removal_error(value::views(removals@)),
            final(self)@ == if r is Ok {
                RegistryView {
                    entries: removed_from(old(self)@.entries, value::views(removals@)),
                    services: old(self)@.services,
                }
            } else {
                old(self)@
            },
    {
        let ghost all = value::views(removals@);
        let mut next = rules::copy_entries(self.entries.as_slice());
        let mut i: usize = 0;
        assert(all.take(0) =~= Seq::empty());
        while i < removals.len()
            invariant
                i <= removals@.len(),
                all == value::views(removals@),
                *self == *old(self),
                old(self).wf(),
                service_removal_error(all.take(i as int)) is None,
                value::views(next@) == removed_from(old(self)@.entries, all.take(i as int)),
                entries_ok(value::views(next@)),
            decreases removals@.len() - i,
        {
            let c = &removals[i];
            proof {
                assert(all.take(i + 1).drop_last() =~= all.take(i as int));
                assert(all.take(i + 1).last() == c@);
                lemma_cleared(value::views(next@), rules::slot_of(c@));
            }
            match &c.kind {
                ContributionKind::Service(_) => {
                    proof {
                        lemma_service_removal_stays(all, i + 1);
                    }
                    return Err(
                        ScopeError::InvalidContribution {
                            scope: c.scope.copy(),
                            reason: "remove_contributions is for non-service contributions; services are removed through the shared service registry".to_owned(),
                        },
                    );
                },
                _ => {
                    rules::clear_slot(&mut next, c);
                },
            }
            i = i + 1;
        }
        assert(all.take(i as int) =~= all);
        self.entries = next;
        Ok(())
    }

    /// The whole state in snapshot order.
    pub fn snapshot(&self) -> (r: Vec<Contribution>)
        ensures
            value::views(r@) == snapshot_of(self@),
    {
        let mut list = rules::copy_entries(self.entries.as_slice());
        let graph = self.services.snapshot();
        push_published(&mut list, &graph);
        in_snapshot_order(list)
    }

    /// The last keymap layer for a scope and key.
    pub fn keymap_for(&self, scope: &ScopePath, key: &str) -> (r: Option<&Keybinding>)
        ensures
            match r {
                Some(k) => rules::latest(
                    self@.entries,
                    Slot::Keymap { scope: scope@, key: key@ },
                ) matches Some(e) && e == (ContributionView {
                    scope: scope@,
                    kind: KindView::Keymap {
                        key: k.key@,
                        context: k.context,
                        action: k.action@,
                        origin: k.origin,
                        owner: value::opt_view(k.owner),
                    },
                }),
                None => rules::latest(
                    self@.entries,
                    Slot::Keymap { scope: scope@, key: key@ },
                ) is None,
            },
    {
        let probe = Contribution {
            scope: scope.copy(),
            kind: ContributionKind::Keymap(
                Keybinding {
                    key: key.to_owned(),
                    context: contribution::ContextPredicate::Always,
                    action: String::new(),
                    origin: contribution::KeymapOrigin::Builtin,
                    owner: None,
                },
            ),
        };
        match find_entry(&self.entries, &probe) {
            Some(p) => {
                proof {
                    rules::lemma_last_place(self@.entries, rules::slot_of(probe@));
                    assert(self@.entries[p as int] == self.entries@[p as int]@);
                }
                match &self.entries[p].kind {
                    ContributionKind::Keymap(k) => Some(k),
                    _ => None,
                }
            },
            None => None,
        }
    }

    /// The merged overlay of a theme.
    pub fn theme_overlay(&self, scope: &ScopePath, name: &str) -> (r: Option<&ThemeContribution>)
        ensures
            match r {
                Some(t) => rules::latest(
                    self@.entries,
                    Slot::Theme { scope: scope@, name: name@ },
                ) == Some(
                    ContributionView {
                        scope: scope@,
                        kind: KindView::Theme { name: t.name@, overlay: t.overlay@ },
                    },
                ),
                None => rules::latest(
                    self@.entries,
                    Slot::Theme { scope: scope@, name: name@ },
                ) is None,
            },
    {
        let probe = Contribution {
            scope: scope.copy(),
            kind: ContributionKind::Theme(
                ThemeContribution { name: name.to_owned(), overlay: Json::Null },
            ),
        };
        match find_entry(&self.entries, &probe) {
            Some(p) => {
                proof {
                    rules::lemma_last_place(self@.entries, rules::slot_of(probe@));
                    assert(self@.entries[p as int] == self.entries@[p as int]@);
                }
                match &self.entries[p].kind {
                    ContributionKind::Theme(t) => Some(t),
                    _ => None,
                }
            },
            None => None,
        }
    }

    /// The merged settings of a scope.
    pub fn settings_for(&self, scope: &ScopePath) -> (r: Option<&SettingsContribution>)
        ensures
            match r {
                Some(s) => rules::latest(self@.entries, Slot::Settings { scope: scope@ }) == Some(
                    ContributionView { scope: scope@, kind: KindView::Settings(s@) },
                ),
                None => rules::latest(self@.entries, Slot::Settings { scope: scope@ }) is None,
            },
    {
        let probe = Contribution {
            scope: scope.copy(),
            kind: ContributionKind::Settings(
                SettingsContribution { provider: None, approval: None },
            ),
        };
        match find_entry(&self.entries, &probe) {
            Some(p) => {
                proof {
                    rules::lemma_last_place(self@.entries, rules::slot_of(probe@));
                    assert(self@.entries[p as int] == self.entries@[p as int]@);
                }
                match &self.entries[p].kind {
                    ContributionKind::Settings(s) => Some(s),
                    _ => None,
                }
            },
            None => None,
        }
    }

    /// The hooks of a kind, ordered by scope and name.
    pub fn hooks_for(&self, kind: HookKind) -> (r: Vec<Contribution>)
        ensures
            value::views(r@) == order::ordered(hooks_among(self@.entries, kind), hook_order()),
            forall|c: ContributionView| #[trigger]
                value::views(r@).to_multiset().count(c) == if c.kind matches KindView::Hook {
                    hook,
                    ..
                } && hook == kind {
                    self@.entries.to_multiset().count(c)
                } else {
                    0
                },
    {
        proof {
            assert forall|c: ContributionView| #[trigger]
                order::ordered(
                    hooks_among(self@.entries, kind),
                    hook_order(),
                ).to_multiset().count(c) == if c.kind matches KindView::Hook { hook, .. } && hook
                    == kind {
                    self@.entries.to_multiset().count(c)
                } else {
                    0
                } by {
                lemma_hooks_among(self@.entries, kind, c);
                order::lemma_ordered(hooks_among(self@.entries, kind), hook_order());
            }
        }
        let ghost all = self@.entries;
        let mut keyed: Vec<Keyed<Contribution>> = Vec::new();
        let mut i: usize = 0;
        assert(all.take(0) =~= Seq::empty());
        assert(order::item_views(keyed@) =~= Seq::<ContributionView>::empty());
        while i < self.entries.len()
            invariant
                i <= self.entries.len(),
                all == value::views(self.entries@),
                order::item_views(keyed@) == hooks_among(all.take(i as int), kind),
                forall|k: int|
                    0 <= k < keyed.len() ==> value::views((#[trigger] keyed@[k]).key@)
                        == hook_order()(keyed@[k].item@),
            decreases self.entries.len() - i,
        {
            let c = &self.entries[i];
            proof {
                assert(all.take(i + 1).drop_last() =~= all.take(i as int));
                assert(all.take(i + 1).last() == c@);
            }
            match &c.kind {
                ContributionKind::Hook(h) => {
                    if h.hook == kind {
                        let mut key: Vec<String> = Vec::new();
                        key.push(c.scope.text());
                        key.push(h.name.clone());
                        let item = c.copy();
                        let ghost before = order::item_views(keyed@);
                        keyed.push(Keyed { key, item });
                        assert(order::item_views(keyed@) =~= before.push(c@));
                    }
                },
                _ => {},
            }
            i = i + 1;
        }
        assert(all.take(i as int) =~= all);
        order::order_items(keyed, Ghost(hook_order()))
    }

    /// Puts a replacement into its slot after naming the previous holder.
    fn replace_entry(
        &mut self,
        c: Contribution,
        holder: String,
        challenger: String,
        current: usize,
        previous_holder: &str,
    ) -> (r: Result<(), ScopeError>)
        requires
            old(self).wf(),
            current < old(self)@.entries.len(),
            rules::last_place(old(self)@.entries, rules::slot_of(c@)) == current,
            holder@ == rules::holder_name(old(self)@.entries[current as int]),
            challenger@ == rules::holder_name(c@),
            entry_ok(c@),
        ensures
            final(self).wf(),
            value::failure(r) == (if holder@ != previous_holder@ {
                Some(
                    rules::conflict_view(c@, rules::conflict_name(c@), holder@, challenger@),
                )
            } else {
                None
            }),
            final(self)@ == if r is Ok {
                with_entry(old(self)@, c@)
            } else {
                old(self)@
            },
    {
        if !text::same_text(holder.as_str(), previous_holder) {
            let name = match &c.kind {
                ContributionKind::Command(x) => x.name.clone(),
                ContributionKind::Tool(x) => x.name.clone(),
                ContributionKind::Service(x) => x.key.name.clone(),
                ContributionKind::ProjectionStage(x) => x.slot.clone(),
                ContributionKind::UiMount(x) => x.name.clone(),
                ContributionKind::Guard(x) => x.name.clone(),
                _ => {
                    let s = String::new();
                    assert(s@ =~= Seq::<char>::empty());
                    s
                },
            };
            return Err(
                ScopeError::Conflict {
                    kind: c.kind.kind_tag(),
                    scope: c.scope.copy(),
                    name,
                    holder,
                    challenger,
                },
            );
        }
        proof {
            lemma_put_ok(self@.entries, c@);
        }
        self.entries.set(current, c);
        Ok(())
    }

    /// Replaces a command; `previous_holder` must name its current handler.
    pub fn replace_command(
        &mut self,
        scope: &ScopePath,
        name: &str,
        new: CommandContribution,
        previous_holder: &str,
    ) -> (r: Result<(), ScopeError>)
        requires
            old(self).wf(),
        ensures
            final(self).wf(),
            value::failure(r) == replacement_error(
                old(self)@,
                ContributionView {
                    scope: scope@,
                    kind: KindView::Command { name: new.name@, handler: new.handler@ },
                },
                name@,
                "replacement for command `"@ + name@ + "` in `"@ + services::scope_text(scope@)
                    + "` carries name `"@ + new.name@ + "`"@,
                "replace of command `"@ + name@ + "` in `"@ + services::scope_text(scope@)
                    + "`: no current registration"@,
                previous_holder@,
            ),
            final(self)@ == if r is Ok {
                with_entry(
                    old(self)@,
                    ContributionView {
                        scope: scope@,
                        kind: KindView::Command { name: new.name@, handler: new.handler@ },
                    },
                )
            } else {
                old(self)@
            },
    {
        let shown = scope.text();
        if !text::same_text(new.name.as_str(), name) {
            let mut reason = text::cat5(
                "replacement for command `",
                name,
                "` in `",
                shown.as_str(),
                "` carries name `",
            );
            reason.append(new.name.as_str());
            reason.append("`");
            return Err(ScopeError::InvalidInput(reason));
        }
        let challenger = new.handler.clone();
        let c = Contribution { scope: scope.copy(), kind: ContributionKind::Command(new) };
        match find_entry(&self.entries, &c) {
            None => Err(
                ScopeError::InvalidInput(
                    text::cat5(
                        "replace of command `",
                        name,
                        "` in `",
                        shown.as_str(),
                        "`: no current registration",
                    ),
                ),
            ),
            Some(p) => {
                proof {
                    rules::lemma_last_place(self@.entries, rules::slot_of(c@));
                    assert(self@.entries[p as int] == self.entries@[p as int]@);
                }
                let holder = match &self.entries[p].kind {
                    ContributionKind::Command(x) => x.handler.clone(),
                    _ => String::new(),
                };
                self.replace_entry(c, holder, challenger, p, previous_holder)
            },
        }
    }

    /// Replaces a tool; `previous_holder` must name its current handler.
    pub fn replace_tool(
        &mut self,
        scope: &ScopePath,
        name: &str,
        new: ToolContribution,
        previous_holder: &str,
    ) -> (r: Result<(), ScopeError>)
        requires
            old(self).wf(),
        ensures
            final(self).wf(),
            value::failure(r) == replacement_error(
                old(self)@,
                ContributionView {
                    scope: scope@,
                    kind: KindView::Tool {
                        name: new.name@,
                        manifest: new.manifest@,
                        handler: new.handler@,
                    },
                },
                name@,
                "replacement for tool `"@ + name@ + "` in `"@ + services::scope_text(scope@)
                    + "` carries name `"@ + new.name@ + "`"@,
                "replace of tool `"@ + name@ + "` in `"@ + services::scope_text(scope@)
                    + "`: no current registration"@,
                previous_holder@,
            ),
            final(self)@ == if r is Ok {
                with_entry(
                    old(self)@,
                    ContributionView {
                        scope: scope@,
                        kind: KindView::Tool {
                            name: new.name@,
                            manifest: new.manifest@,
                            handler: new.handler@,
                        },
                    },
                )
            } else {
                old(self)@
            },
    {
        let shown = scope.text();
        if !text::same_text(new.name.as_str(), name) {
            let mut reason = text::cat5(
                "replacement for tool `",
                name,
                "` in `",
                shown.as_str(),
                "` carries name `",
            );
            reason.append(new.name.as_str());
            reason.append("`");
            return Err(ScopeError::InvalidInput(reason));
        }
        let challenger = new.handler.clone();
        let c = Contribution { scope: scope.copy(), kind: ContributionKind::Tool(new) };
        match find_entry(&self.entries, &c) {
            None => Err(
                ScopeError::InvalidInput(
                    text::cat5(
                        "replace of tool `",
                        name,
                        "` in `",
                        shown.as_str(),
                        "`: no current registration",
                    ),
                ),
            ),
            Some(p) => {
                proof {
                    rules::lemma_last_place(self@.entries, rules::slot_of(c@));
                    assert(self@.entries[p as int] == self.entries@[p as int]@);
                }
                let holder = match &self.entries[p].kind {
                    ContributionKind::Tool(x) => x.handler.clone(),
                    _ => String::new(),
                };
                self.replace_entry(c, holder, challenger, p, previous_holder)
            },
        }
    }

    /// Replaces a UI mount; `previous_holder` must name its current component.
    /// The new mount's slot is checked last, and given when it is missing.
    pub fn replace_ui_mount(
        &mut self,
        scope: &ScopePath,
        name: &str,
        new: UiMountContribution,
        previous_holder: &str,
    ) -> (r: Result<(), ScopeError>)
        requires
            old(self).wf(),
        ensures
            final(self).wf(),
            ({
                let c = ContributionView {
                    scope: scope@,
                    kind: KindView::UiMount {
                        name: new.name@,
                        component: new.component@,
                        slot: value::opt_view(new.slot),
                    },
                };
                let refused = replacement_error(
                    old(self)@,
                    c,
                    name@,
                    "replacement for UI mount `"@ + name@ + "` in `"@ + services::scope_text(
                        scope@,
                    ) + "` carries name `"@ + new.name@ + "`"@,
                    "replace of UI mount `"@ + name@ + "` in `"@ + services::scope_text(scope@)
                        + "`: no current registration"@,
                    previous_holder@,
                );
                &&& value::failure(r) == if refused is Some {
                    refused
                } else {
                    rules::ui_slot_error(scope@, value::opt_view(new.slot))
                }
                &&& final(self)@ == if r is Ok {
                    with_entry(old(self)@, slotted(c))
                } else {
                    old(self)@
                }
            }),
    {
        let shown = scope.text();
        if !text::same_text(new.name.as_str(), name) {
            let mut reason = text::cat5(
                "replacement for UI mount `",
                name,
                "` in `",
                shown.as_str(),
                "` carries name `",
            );
            reason.append(new.name.as_str());
            reason.append("`");
            return Err(ScopeError::InvalidInput(reason));
        }
        let mounted = slot_mount(&new);
        let challenger = new.component.clone();
        let c = Contribution { scope: scope.copy(), kind: ContributionKind::UiMount(mounted) };
        match find_entry(&self.entries, &c) {
            None => Err(
                ScopeError::InvalidInput(
                    text::cat5(
                        "replace of UI mount `",
                        name,
                        "` in `",
                        shown.as_str(),
                        "`: no current registration",
                    ),
                ),
            ),
            Some(p) => {
                proof {
                    rules::lemma_last_place(self@.entries, rules::slot_of(c@));
                    assert(self@.entries[p as int] == self.entries@[p as int]@);
                }
                let holder = match &self.entries[p].kind {
                    ContributionKind::UiMount(x) => x.component.clone(),
                    _ => String::new(),
                };
                if text::same_text(holder.as_str(), previous_holder) {
                    match rules::validate_ui_slot(scope, &new.slot) {
                        Err(e) => {
                            return Err(e);
                        },
                        Ok(_) => {},
                    }
                }
                self.replace_entry(c, holder, challenger, p, previous_holder)
            },
        }
    }

    /// Replaces a projection stage; `previous_holder` must name its current
    /// handler. Slot and ordering identify the stage.
    pub fn replace_stage(
        &mut self,
        scope: &ScopePath,
        slot: &str,
        new: ProjectionStageContribution,
        previous_holder: &str,
    ) -> (r: Result<(), ScopeError>)
        requires
            old(self).wf(),
        ensures
            final(self).wf(),
            value::failure(r) == replacement_error(
                old(self)@,
                ContributionView {
                    scope: scope@,
                    kind: KindView::ProjectionStage {
                        slot: new.slot@,
                        ordering: new.ordering,
                        handler: new.handler@,
                    },
                },
                slot@,
                "replacement for stage slot `"@ + slot@ + "` in `"@ + services::scope_text(scope@)
                    + "` carries slot `"@ + new.slot@ + "`"@,
                "replace of stage `"@ + slot@ + "` in `"@ + services::scope_text(scope@)
                    + "`: no current registration"@,
                previous_holder@,
            ),
            final(self)@ == if r is Ok {
                with_entry(
                    old(self)@,
                    ContributionView {
                        scope: scope@,
                        kind: KindView::ProjectionStage {
                            slot: new.slot@,
                            ordering: new.ordering,
                            handler: new.handler@,
                        },
                    },
                )
            } else {
                old(self)@
            },
    {
        let shown = scope.text();
        if !text::same_text(new.slot.as_str(), slot) {
            let mut reason = text::cat5(
                "replacement for stage slot `",
                slot,
                "` in `",
                shown.as_str(),
                "` carries slot `",
            );
            reason.append(new.slot.as_str());
            reason.append("`");
            return Err(ScopeError::InvalidInput(reason));
        }
        let challenger = new.handler.clone();
        let c = Contribution {
            scope: scope.copy(),
            kind: ContributionKind::ProjectionStage(new),
        };
        match find_entry(&self.entries, &c) {
            None => Err(
                ScopeError::InvalidInput(
                    text::cat5(
                        "replace of stage `",
                        slot,
                        "` in `",
                        shown.as_str(),
                        "`: no current registration",
                    ),
                ),
            ),
            Some(p) => {
                proof {
                    rules::lemma_last_place(self@.entries, rules::slot_of(c@));
                    assert(self@.entries[p as int] == self.entries@[p as int]@);
                }
                let holder = match &self.entries[p].kind {
                    ContributionKind::ProjectionStage(x) => x.handler.clone(),
                    _ => String::new(),
                };
                self.replace_entry(c, holder, challenger, p, previous_holder)
            },
        }
    }

    /// Rebuilds the overlays of `scope` (settings and themes) from exactly
    /// the given contributions, in order. Other kinds are left alone.
    pub fn recompose_overlays(&mut self, scope: &ScopePath, contributions: &[Contribution])
        requires
            old(self).wf(),
        ensures
            final(self).wf(),
            final(self)@.services == old(self)@.services,
            final(self)@.entries == overlaid(
                without_overlays(old(self)@.entries, scope@),
                scope@,
                value::views(contributions@),
            ),
    {
        let ghost v = self@;
        let mut next: Vec<Contribution> = Vec::new();
        let mut i: usize = 0;
        assert(v.entries.take(0) =~= Seq::empty());
        while i < self.entries.len()
            invariant
                i <= self.entries.len(),
                v.entries == value::views(self.entries@),
                value::views(next@) == without_overlays(v.entries.take(i as int), scope@),
            decreases self.entries.len() - i,
        {
            let c = &self.entries[i];
            proof {
                assert(v.entries.take(i + 1).drop_last() =~= v.entries.take(i as int));
                assert(v.entries.take(i + 1).last() == c@);
            }
            let overlay = match &c.kind {
                ContributionKind::Settings(_) => true,
                ContributionKind::Theme(_) => true,
                _ => false,
            };
            if !(overlay && c.scope.same(scope)) {
                next.push(c.copy());
            }
            i = i + 1;
        }
        proof {
            assert(v.entries.take(i as int) =~= v.entries);
            lemma_without_overlays_ok(v.entries, scope@);
        }
        let ghost base = without_overlays(v.entries, scope@);
        let ghost all = value::views(contributions@);
        let mut k: usize = 0;
        assert(all.take(0) =~= Seq::empty());
        while k < contributions.len()
            invariant
                k <= contributions@.len(),
                all == value::views(contributions@),
                value::views(next@) == overlaid(base, scope@, all.take(k as int)),
                entries_ok(value::views(next@)),
            decreases contributions@.len() - k,
        {
            let c = &contributions[k];
            proof {
                assert(all.take(k + 1).drop_last() =~= all.take(k as int));
                assert(all.take(k + 1).last() == c@);
            }
            let merges = match &c.kind {
                ContributionKind::Settings(_) => true,
                ContributionKind::Theme(t) => t.overlay.is_object(),
                _ => false,
            };
            if merges && c.scope.same(scope) {
                register(&mut next, c);
            }
            k = k + 1;
        }
        assert(all.take(k as int) =~= all);
        self.entries = next;
    }
}

} // verus!
