//! What holds of the contribution registry across operations.
use vstd::prelude::*;
use crate::contribution;
use crate::contribution::{ContributionView, HookKind, KindView, SettingsView};
use crate::json;
use crate::json::FieldView;
use crate::order;
use crate::registry;
use crate::registry::RegistryView;
use crate::rules;
use crate::rules::Slot;
use crate::scope_tree;
use crate::scope_tree::{OwnerLease, ScopeView};
use crate::services;
use crate::services::{DependencyView, EntryView, KeyView};

verus! {

// ---------- settings ----------

/// A set field of a later layer wins, an unset one keeps what is there:
/// overlaying is associative, so layers can be merged in any grouping.
pub proof fn law_settings_overlay_is_associative(a: SettingsView, b: SettingsView, c: SettingsView)
    ensures
        rules::settings_over(rules::settings_over(a, b), c) == rules::settings_over(
            a,
            rules::settings_over(b, c),
        ),
{
}

/// The empty overlay changes nothing, and overlays nothing.
pub proof fn law_empty_settings_are_neutral(a: SettingsView)
    ensures
        rules::settings_over(a, contribution::no_settings()) == a,
        rules::settings_over(contribution::no_settings(), a) == a,
{
}

/// Applying a layer twice is applying it once.
pub proof fn law_settings_overlay_is_idempotent(a: SettingsView, b: SettingsView)
    ensures
        rules::settings_over(rules::settings_over(a, b), b) == rules::settings_over(a, b),
{
}

// ---------- theme overlays ----------

proof fn lemma_lookup_at(fields: Seq<FieldView>, name: Seq<char>, p: int)
    requires
        0 <= p < fields.len(),
        fields[p].name == name,
        forall|i: int| 0 <= i < p ==> (#[trigger] fields[i]).name != name,
    ensures
        json::lookup(fields, name) == Some(fields[p].value),
{
    json::lemma_field_place(fields, name);
    let q = json::field_place(fields, name);
    if q < p {
        if q < fields.len() {
            assert(fields[q].name != name);
        }
    } else if q > p {
        assert(fields[p].name != name);
    }
}

proof fn lemma_lookup_none(fields: Seq<FieldView>, name: Seq<char>)
    requires
        forall|i: int| 0 <= i < fields.len() ==> (#[trigger] fields[i]).name != name,
    ensures
        json::lookup(fields, name) is None,
{
    json::lemma_field_place(fields, name);
}

/// A field inserted among fields of other names is found there, and moves no
/// other field's value.
proof fn lemma_insert_lookup(fields: Seq<FieldView>, p: int, f: FieldView, name: Seq<char>)
    requires
        0 <= p <= fields.len(),
        json::lookup(fields, f.name) is None,
    ensures
        json::lookup(fields.insert(p, f), name) == if name == f.name {
            Some(f.value)
        } else {
            json::lookup(fields, name)
        },
{
    let g = fields.insert(p, f);
    json::lemma_field_place(fields, f.name);
    json::lemma_field_place(fields, name);
    if name == f.name {
        assert forall|i: int| 0 <= i < p implies (#[trigger] g[i]).name != name by {
            assert(g[i] == fields[i]);
        }
        lemma_lookup_at(g, name, p);
    } else {
        let q = json::field_place(fields, name);
        if q < fields.len() {
            let w = if q < p {
                q
            } else {
                q + 1
            };
            assert(g[w] == fields[q]);
            assert forall|i: int| 0 <= i < w implies (#[trigger] g[i]).name != name by {
                if i < p {
                    assert(g[i] == fields[i]);
                } else if i > p {
                    assert(g[i] == fields[i - 1]);
                }
            }
            lemma_lookup_at(g, name, w);
        } else {
            assert forall|i: int| 0 <= i < g.len() implies (#[trigger] g[i]).name != name by {
                if i < p {
                    assert(g[i] == fields[i]);
                } else if i > p {
                    assert(g[i] == fields[i - 1]);
                }
            }
            lemma_lookup_none(g, name);
        }
    }
}

/// Where an element is placed.
proof fn lemma_placed_is_insert(
    s: Seq<FieldView>,
    key: spec_fn(FieldView) -> Seq<Seq<char>>,
    x: FieldView,
)
    ensures
        exists|p: int| 0 <= p <= s.len() && order::placed(s, key, x) == #[trigger] s.insert(p, x),
    decreases s.len(),
{
    if s.len() == 0 || order::key_le(key(s.last()), key(x)) {
        assert(s.push(x) =~= s.insert(s.len() as int, x));
    } else {
        lemma_placed_is_insert(s.drop_last(), key, x);
        let p = choose|p: int|
            0 <= p <= s.len() - 1 && order::placed(s.drop_last(), key, x)
                == #[trigger] s.drop_last().insert(p, x);
        assert(order::placed(s, key, x) =~= s.insert(p, x));
    }
}

/// Setting a field sets that name and no other.
pub proof fn lemma_set_field(fields: Seq<FieldView>, f: FieldView, name: Seq<char>)
    ensures
        json::lookup(json::set_field(fields, f), name) == if name == f.name {
            Some(f.value)
        } else {
            json::lookup(fields, name)
        },
{
    json::lemma_field_place(fields, f.name);
    json::lemma_field_place(fields, name);
    if json::lookup(fields, f.name) is Some {
        let p = json::field_place(fields, f.name);
        let g = fields.update(p, f);
        if name == f.name {
            assert forall|i: int| 0 <= i < p implies (#[trigger] g[i]).name != name by {
                assert(g[i] == fields[i]);
            }
            lemma_lookup_at(g, name, p);
        } else {
            let q = json::field_place(fields, name);
            assert forall|i: int| 0 <= i < q implies (#[trigger] g[i]).name != name by {
                if i != p {
                    assert(g[i] == fields[i]);
                }
            }
            if q < fields.len() {
                assert(q != p);
                assert(g[q] == fields[q]);
                lemma_lookup_at(g, name, q);
            } else {
                lemma_lookup_none(g, name);
            }
        }
    } else {
        lemma_placed_is_insert(fields, json::field_order(), f);
        let p = choose|p: int|
            0 <= p <= fields.len() && order::placed(fields, json::field_order(), f)
                == #[trigger] fields.insert(p, f);
        lemma_insert_lookup(fields, p, f, name);
    }
}

/// The last value given for a name.
pub open spec fn last_given(fields: Seq<FieldView>, name: Seq<char>) -> Option<json::JsonView>
    decreases fields.len(),
{
    if fields.len() == 0 {
        None
    } else if fields.last().name == name {
        Some(fields.last().value)
    } else {
        last_given(fields.drop_last(), name)
    }
}

/// Merging overlays is a shallow merge: each top-level key has the last value
/// given for it, or else the value it had.
pub proof fn law_overlay_merge_is_shallow(
    base: Seq<FieldView>,
    incoming: Seq<FieldView>,
    name: Seq<char>,
)
    ensures
        json::lookup(json::merged(base, incoming), name) == match last_given(incoming, name) {
            Some(v) => Some(v),
            None => json::lookup(base, name),
        },
    decreases incoming.len(),
{
    if incoming.len() > 0 {
        law_overlay_merge_is_shallow(base, incoming.drop_last(), name);
        lemma_set_field(json::merged(base, incoming.drop_last()), incoming.last(), name);
    }
}

// ---------- slots ----------

/// Putting an entry gives its slot that entry and leaves all other slots.
pub proof fn law_put_touches_one_slot(s: Seq<ContributionView>, c: ContributionView, slot: Slot)
    ensures
        rules::latest(rules::put(s, c), slot) == if slot == rules::slot_of(c) {
            Some(c)
        } else {
            rules::latest(s, slot)
        },
{
    let p = rules::last_place(s, rules::slot_of(c));
    let t = rules::put(s, c);
    rules::lemma_last_place(s, rules::slot_of(c));
    rules::lemma_last_place(s, slot);
    let q = rules::last_place(s, slot);
    if slot == rules::slot_of(c) {
        if p >= 0 {
            assert forall|i: int| p < i < t.len() implies rules::slot_of(#[trigger] t[i])
                != slot by {
                assert(t[i] == s[i]);
            }
            rules::lemma_is_last_place(t, slot, p);
        } else {
            rules::lemma_is_last_place(t, slot, s.len() as int);
        }
    } else {
        assert forall|i: int| q < i < t.len() implies rules::slot_of(#[trigger] t[i]) != slot by {
            if i < s.len() && i != p {
                assert(t[i] == s[i]);
            }
        }
        if q >= 0 {
            assert(q != p);
            assert(t[q] == s[q]);
        }
        rules::lemma_is_last_place(t, slot, q);
    }
}

proof fn lemma_push_latest(s: Seq<ContributionView>, c: ContributionView, slot: Slot)
    ensures
        rules::latest(s.push(c), slot) == if slot == rules::slot_of(c) {
            Some(c)
        } else {
            rules::latest(s, slot)
        },
{
    rules::lemma_last_place(s, slot);
    assert(s.push(c).drop_last() =~= s);
    if slot != rules::slot_of(c) && rules::last_place(s, slot) >= 0 {
        assert(s.push(c)[rules::last_place(s, slot)] == s[rules::last_place(s, slot)]);
    }
}

/// Registering a contribution leaves all other slots.
pub proof fn law_registering_touches_one_slot(
    s: Seq<ContributionView>,
    c: ContributionView,
    slot: Slot,
)
    requires
        slot != rules::slot_of(c),
    ensures
        rules::latest(registry::registered(s, c), slot) == rules::latest(s, slot),
{
    match c.kind {
        KindView::Keymap { .. } => lemma_push_latest(s, c, slot),
        KindView::Hook { .. } => lemma_push_latest(s, c, slot),
        KindView::Theme { .. } => {
            rules::lemma_last_place(s, rules::slot_of(c));
            let p = rules::last_place(s, rules::slot_of(c));
            if p >= 0 {
                let e = registry::theme_merged(s, c)[p];
                assert(rules::slot_of(e) == rules::slot_of(c));
                assert(registry::theme_merged(s, c) =~= rules::put(s, e));
                law_put_touches_one_slot(s, e, slot);
            } else {
                lemma_push_latest(s, c, slot);
            }
        },
        KindView::Settings(_) => {
            let e = ContributionView {
                scope: c.scope,
                kind: KindView::Settings(
                    rules::settings_over(
                        registry::standing_settings(s, rules::slot_of(c)),
                        c.kind->Settings_0,
                    ),
                ),
            };
            law_put_touches_one_slot(s, e, slot);
        },
        KindView::UiMount { .. } => law_put_touches_one_slot(s, registry::slotted(c), slot),
        _ => law_put_touches_one_slot(s, c, slot),
    }
}

/// A registered keymap is the one that lookup finds: the last layer wins.
pub proof fn law_last_keymap_layer_wins(s: Seq<ContributionView>, c: ContributionView)
    requires
        c.kind is Keymap,
    ensures
        rules::latest(registry::registered(s, c), rules::slot_of(c)) == Some(c),
{
    lemma_push_latest(s, c, rules::slot_of(c));
}

/// Registered settings are what stood before, overlaid by the new layer.
pub proof fn law_registered_settings_are_overlaid(s: Seq<ContributionView>, c: ContributionView)
    requires
        c.kind is Settings,
    ensures
        rules::latest(registry::registered(s, c), rules::slot_of(c)) == Some(
            ContributionView {
                scope: c.scope,
                kind: KindView::Settings(
                    rules::settings_over(
                        registry::standing_settings(s, rules::slot_of(c)),
                        c.kind->Settings_0,
                    ),
                ),
            },
        ),
{
    let e = ContributionView {
        scope: c.scope,
        kind: KindView::Settings(
            rules::settings_over(
                registry::standing_settings(s, rules::slot_of(c)),
                c.kind->Settings_0,
            ),
        ),
    };
    law_put_touches_one_slot(s, e, rules::slot_of(c));
}

// ---------- guards ----------

/// After the steps of a set, a guard's slot holds the last guard staged for
/// it, or what stood there before.
proof fn lemma_guard_standing(
    v: RegistryView,
    staged: Seq<ContributionView>,
    slot: Slot,
)
    requires
        slot is Guard,
        registry::steps(v, Seq::empty(), staged) is Some,
    ensures
        rules::latest(registry::steps(v, Seq::empty(), staged)->0.entries, slot) == match rules::latest(
            staged,
            slot,
        ) {
            Some(e) => Some(e),
            None => rules::latest(v.entries, slot),
        },
    decreases staged.len(),
{
    let w = registry::steps(v, Seq::empty(), staged)->0;
    if staged.len() == 0 {
        assert(rules::last_place(staged, slot) == -1);
    } else {
        let rest = staged.drop_last();
        let c = staged.last();
        lemma_guard_standing(v, rest, slot);
        let u = registry::steps(v, Seq::empty(), rest)->0;
        assert(staged =~= rest.push(c));
        lemma_push_latest(rest, c, slot);
        if rules::slot_of(c) == slot {
            law_put_touches_one_slot(u.entries, c, slot);
        } else {
            match c.kind {
                KindView::Service { .. } => {},
                _ => {
                    law_registering_touches_one_slot(u.entries, c, slot);
                },
            }
        }
    }
}

/// A guard that stands in a validated set's way is monotonic or weak to all.
proof fn lemma_guards_in_set(
    v: RegistryView,
    staged: Seq<ContributionView>,
    slot: Slot,
)
    requires
        slot is Guard,
        rules::set_violation(v.entries, v.services, staged) is None,
        rules::latest(v.entries, slot) matches Some(e) && e.kind is Guard && e.kind->monotonic,
    ensures
        rules::latest(staged, slot) matches Some(e) ==> e.kind is Guard && e.kind->monotonic,
    decreases staged.len(),
{
    if staged.len() > 0 {
        let rest = staged.drop_last();
        let c = staged.last();
        lemma_guards_in_set(v, rest, slot);
        assert(staged =~= rest.push(c));
        lemma_push_latest(rest, c, slot);
    }
}

/// A monotonic guard is never weakened: a set that passes validation leaves
/// a monotonic guard in its slot.
pub proof fn law_monotonic_guards_stay(v: RegistryView, staged: Seq<ContributionView>, slot: Slot)
    requires
        slot is Guard,
        rules::set_violation(v.entries, v.services, staged) is None,
        registry::steps(v, Seq::empty(), staged) is Some,
        rules::latest(v.entries, slot) matches Some(e) && e.kind is Guard && e.kind->monotonic,
    ensures
        rules::latest(registry::steps(v, Seq::empty(), staged)->0.entries, slot) matches Some(e)
            && e.kind is Guard && e.kind->monotonic,
{
    lemma_guard_standing(v, staged, slot);
    lemma_guards_in_set(v, staged, slot);
}

// ---------- plans and removals ----------

proof fn lemma_cleared_latest(s: Seq<ContributionView>, gone: Slot, slot: Slot)
    requires
        gone != slot,
    ensures
        rules::latest(rules::cleared(s, gone), slot) == rules::latest(s, slot),
    decreases s.len(),
{
    if s.len() > 0 {
        let t = s.drop_last();
        lemma_cleared_latest(t, gone, slot);
        assert(s =~= t.push(s.last()));
        lemma_push_latest(t, s.last(), slot);
        lemma_push_latest(rules::cleared(t, gone), s.last(), slot);
    }
}

/// A precedence plan never takes settings out: they merge only.
pub proof fn law_plans_keep_settings(
    s: Seq<ContributionView>,
    removed: Seq<ContributionView>,
    slot: Slot,
)
    requires
        slot is Settings,
    ensures
        rules::latest(registry::displaced(s, removed), slot) == rules::latest(s, slot),
    decreases removed.len(),
{
    if removed.len() > 0 {
        law_plans_keep_settings(s, removed.drop_last(), slot);
        let c = removed.last();
        if !(c.kind is Service || c.kind is Settings) {
            lemma_cleared_latest(
                registry::displaced(s, removed.drop_last()),
                rules::slot_of(c),
                slot,
            );
        }
    }
}

proof fn lemma_cleared_has_none(s: Seq<ContributionView>, slot: Slot)
    ensures
        forall|i: int|
            0 <= i < rules::cleared(s, slot).len() ==> rules::slot_of(
                #[trigger] rules::cleared(s, slot)[i],
            ) != slot && s.contains(rules::cleared(s, slot)[i]),
    decreases s.len(),
{
    if s.len() > 0 {
        let t = s.drop_last();
        lemma_cleared_has_none(t, slot);
        let all = rules::cleared(s, slot);
        let rest = rules::cleared(t, slot);
        assert forall|i: int| 0 <= i < all.len() implies rules::slot_of(#[trigger] all[i]) != slot
            && s.contains(all[i]) by {
            if i < rest.len() {
                assert(all[i] == rest[i]);
                let k = choose|k: int| 0 <= k < t.len() && t[k] == rest[i];
                assert(s[k] == rest[i]);
            } else {
                assert(s[s.len() - 1] == all[i]);
            }
        }
    }
}

proof fn lemma_cleared_identity(s: Seq<ContributionView>, slot: Slot)
    requires
        forall|i: int| 0 <= i < s.len() ==> rules::slot_of(#[trigger] s[i]) != slot,
    ensures
        rules::cleared(s, slot) == s,
    decreases s.len(),
{
    if s.len() > 0 {
        let t = s.drop_last();
        assert forall|i: int| 0 <= i < t.len() implies rules::slot_of(#[trigger] t[i]) != slot by {
            assert(t[i] == s[i]);
        }
        lemma_cleared_identity(t, slot);
        assert(s[s.len() - 1] == s.last());
        assert(t.push(s.last()) =~= s);
    }
}

proof fn lemma_removed_from(s: Seq<ContributionView>, removals: Seq<ContributionView>, k: int)
    requires
        0 <= k < removals.len(),
    ensures
        forall|i: int|
            0 <= i < registry::removed_from(s, removals).len() ==> rules::slot_of(
                #[trigger] registry::removed_from(s, removals)[i],
            ) != rules::slot_of(removals[k]),
    decreases removals.len(),
{
    let rest = registry::removed_from(s, removals.drop_last());
    let all = registry::removed_from(s, removals);
    lemma_cleared_has_none(rest, rules::slot_of(removals.last()));
    if k < removals.len() - 1 {
        lemma_removed_from(s, removals.drop_last(), k);
        assert forall|i: int| 0 <= i < all.len() implies rules::slot_of(#[trigger] all[i])
            != rules::slot_of(removals[k]) by {
            assert(rest.contains(all[i]));
            let m = choose|m: int| 0 <= m < rest.len() && rest[m] == all[i];
            assert(rules::slot_of(rest[m]) != rules::slot_of(removals.drop_last()[k]));
        }
    }
}

proof fn lemma_removed_from_identity(
    s: Seq<ContributionView>,
    removals: Seq<ContributionView>,
)
    requires
        forall|i: int, k: int|
            0 <= i < s.len() && 0 <= k < removals.len() ==> rules::slot_of(#[trigger] s[i])
                != rules::slot_of(#[trigger] removals[k]),
    ensures
        registry::removed_from(s, removals) == s,
    decreases removals.len(),
{
    if removals.len() > 0 {
        let r = removals.drop_last();
        assert forall|i: int, k: int| 0 <= i < s.len() && 0 <= k < r.len() implies rules::slot_of(
            #[trigger] s[i],
        ) != rules::slot_of(#[trigger] r[k]) by {
            assert(r[k] == removals[k]);
        }
        lemma_removed_from_identity(s, r);
        assert forall|i: int| 0 <= i < s.len() implies rules::slot_of(#[trigger] s[i])
            != rules::slot_of(removals.last()) by {
            assert(removals[removals.len() - 1] == removals.last());
        }
        lemma_cleared_identity(s, rules::slot_of(removals.last()));
    }
}

/// Removing the same contributions again changes nothing.
pub proof fn law_removal_is_idempotent(
    s: Seq<ContributionView>,
    removals: Seq<ContributionView>,
)
    ensures
        registry::removed_from(registry::removed_from(s, removals), removals)
            == registry::removed_from(s, removals),
{
    let t = registry::removed_from(s, removals);
    assert forall|i: int, k: int| 0 <= i < t.len() && 0 <= k < removals.len() implies rules::slot_of(
        #[trigger] t[i],
    ) != rules::slot_of(#[trigger] removals[k]) by {
        lemma_removed_from(s, removals, k);
    }
    lemma_removed_from_identity(t, removals);
}

// ---------- scope removal ----------

proof fn lemma_entries_in(s: Seq<ContributionView>, scope: Seq<Seq<char>>, want: bool)
    ensures
        forall|c: ContributionView|
            registry::entries_in(s, scope, want).contains(c) <==> #[trigger] s.contains(c) && (
            c.scope == scope) == want,
    decreases s.len(),
{
    let all = registry::entries_in(s, scope, want);
    if s.len() > 0 {
        let t = s.drop_last();
        let rest = registry::entries_in(t, scope, want);
        lemma_entries_in(t, scope, want);
        assert(all == rest || all == rest.push(s.last()));
        assert forall|c: ContributionView|
            all.contains(c) <==> #[trigger] s.contains(c) && (c.scope == scope) == want by {
            if all.contains(c) {
                let k = choose|k: int| 0 <= k < all.len() && all[k] == c;
                if k < rest.len() {
                    assert(rest[k] == c);
                    assert(rest.contains(c));
                    assert(t.contains(c));
                    let m = choose|m: int| 0 <= m < t.len() && t[m] == c;
                    assert(s[m] == c);
                } else {
                    assert(all[rest.len() as int] == s.last());
                    assert(s[s.len() - 1] == c);
                }
                assert(s.contains(c));
            }
            if s.contains(c) && (c.scope == scope) == want {
                let m = choose|m: int| 0 <= m < s.len() && s[m] == c;
                if m < t.len() {
                    assert(t[m] == c);
                    assert(t.contains(c));
                    assert(rest.contains(c));
                    let k = choose|k: int| 0 <= k < rest.len() && rest[k] == c;
                    assert(all[k] == c);
                } else {
                    assert(all[all.len() - 1] == c);
                }
            }
        }
    } else {
        assert forall|c: ContributionView|
            all.contains(c) <==> #[trigger] s.contains(c) && (c.scope == scope) == want by {}
    }
}

/// A removed scope leaves nothing behind, and takes no entry of another scope.
pub proof fn law_scope_removal_is_complete(v: RegistryView, scope: Seq<Seq<char>>)
    ensures
        forall|c: ContributionView|
            #[trigger] registry::scope_removed(v, scope).entries.contains(c)
                <==> v.entries.contains(c) && c.scope != scope,
        forall|e: EntryView|
            #[trigger] registry::scope_removed(v, scope).services.contains(e)
                ==> v.services.contains(e) && e.key.scope != scope,
{
    lemma_entries_in(v.entries, scope, false);
    assert forall|c: ContributionView|
        #[trigger] registry::scope_removed(v, scope).entries.contains(c) <==> v.entries.contains(c)
            && c.scope != scope by {}
    let marks = services::falling(v.services, scope);
    assert forall|e: EntryView|
        #[trigger] registry::scope_removed(v, scope).services.contains(e) implies v.services.contains(
        e,
    ) && e.key.scope != scope by {
        services::lemma_pick(v.services, marks, false, e);
        let i = choose|i: int|
            0 <= i < v.services.len() && #[trigger] v.services[i] == e && marks[i] == false;
        assert(v.services.contains(e));
        if e.key.scope == scope {
            let chain = seq![e.key];
            assert(services::holds(v.services, chain[0]));
            assert(services::is_chain(v.services, scope, chain));
            assert(chain.last() == e.key);
        }
    }
}

/// A dependent edge out of the scope shows up among the stranded.
proof fn lemma_outside_dependents(
    s: Seq<EntryView>,
    list: Seq<EntryView>,
    scope: Seq<Seq<char>>,
    i: int,
    d: DependencyView,
)
    requires
        0 <= i < list.len(),
        list[i].key.scope == scope,
        services::dependents(s, list[i].key).contains(d),
        d.key.scope != scope,
    ensures
        registry::outside_dependents(s, list, scope).len() > 0,
    decreases list.len(),
{
    if i < list.len() - 1 {
        assert(list.drop_last()[i] == list[i]);
        lemma_outside_dependents(s, list.drop_last(), scope, i, d);
    } else {
        lemma_outside(services::dependents(s, list[i].key), scope, d);
    }
}

proof fn lemma_outside(edges: Seq<DependencyView>, scope: Seq<Seq<char>>, d: DependencyView)
    requires
        edges.contains(d),
        d.key.scope != scope,
    ensures
        registry::outside(edges, scope).len() > 0,
    decreases edges.len(),
{
    let k = choose|k: int| 0 <= k < edges.len() && edges[k] == d;
    if k < edges.len() - 1 {
        assert(edges.drop_last()[k] == d);
        assert(edges.drop_last().contains(d));
        lemma_outside(edges.drop_last(), scope, d);
    } else {
        assert(edges.last() == d);
    }
}

/// Without stranded dependents, what falls with a scope is in the scope.
proof fn lemma_nothing_stranded(
    s: Seq<EntryView>,
    scope: Seq<Seq<char>>,
    chain: Seq<KeyView>,
    n: int,
)
    requires
        services::well_formed(s),
        registry::stranded(s, scope).len() == 0,
        services::is_chain(s, scope, chain),
        0 <= n < chain.len(),
    ensures
        chain[n].scope == scope,
        services::holds(s, chain[n]),
    decreases n,
{
    if n > 0 {
        lemma_nothing_stranded(s, scope, chain, n - 1);
        let g = services::graph_of(s);
        assert(services::edge(g, chain[n - 1 + 1], chain[n - 1]));
        let (a, b) = choose|a: int, b: int|
            0 <= a < g.len() && 0 <= b < g[a].needs.len() && g[a].key == chain[n]
                && #[trigger] g[a].needs[b] == chain[n - 1];
        assert(s[a].key == chain[n]);
        assert(s[a].deps[b].key == chain[n - 1]);
        if chain[n].scope != scope {
            let d = DependencyView {
                key: chain[n],
                required_version: s[a].deps[b].required_version,
            };
            assert(crate::service_laws::declares(s, chain[n - 1], d));
            crate::service_laws::law_dependents_are_declarations(s, chain[n - 1], d);
            let list = order::ordered(s, services::entry_order());
            let k = services::place_of(s, chain[n - 1]);
            assert(s[k].key == chain[n - 1]);
            order::lemma_ordered_contains(s, services::entry_order(), s[k]);
            assert(s.contains(s[k]));
            assert(list.contains(s[k]));
            let i = choose|i: int| 0 <= i < list.len() && list[i] == s[k];
            lemma_outside_dependents(s, list, scope, i, d);
        }
    }
}

/// A removal that needed no force takes services of its own scope only.
pub proof fn law_unforced_removal_stays_in_scope(v: RegistryView, scope: Seq<Seq<char>>)
    requires
        services::well_formed(v.services),
        registry::removal_error(v, scope, false) is None,
    ensures
        forall|e: EntryView| #[trigger] registry::fallen(v, scope).contains(e) ==> e.key.scope == scope,
        registry::cascade(v, scope).len() == 0,
{
    let marks = services::falling(v.services, scope);
    let gone = registry::fallen(v, scope);
    assert forall|e: EntryView| #[trigger] gone.contains(e) implies e.key.scope == scope by {
        services::lemma_pick(v.services, marks, true, e);
        let i = choose|i: int|
            0 <= i < v.services.len() && #[trigger] v.services[i] == e && marks[i] == true;
        assert(services::falls_with(v.services, scope, e.key));
        let chain = choose|chain: Seq<KeyView>|
            #[trigger] services::is_chain(v.services, scope, chain) && chain.last() == e.key;
        lemma_nothing_stranded(v.services, scope, chain, chain.len() - 1);
    }
    lemma_no_other_scopes(gone, scope);
    let none = registry::other_scopes(gone, scope);
    order::lemma_ordered(none, registry::scope_order());
}

proof fn lemma_no_other_scopes(list: Seq<EntryView>, scope: Seq<Seq<char>>)
    requires
        forall|e: EntryView| #[trigger] list.contains(e) ==> e.key.scope == scope,
    ensures
        registry::other_scopes(list, scope).len() == 0,
    decreases list.len(),
{
    if list.len() > 0 {
        let t = list.drop_last();
        assert forall|e: EntryView| #[trigger] t.contains(e) implies e.key.scope == scope by {
            let k = choose|k: int| 0 <= k < t.len() && t[k] == e;
            assert(list[k] == e);
            assert(list.contains(e));
        }
        lemma_no_other_scopes(t, scope);
        assert(list.contains(list.last())) by {
            assert(list[list.len() - 1] == list.last());
        }
    }
}

// ---------- snapshots ----------

/// Registries with the same registrations, whatever order they came in, give
/// the same snapshot, provided no two different registrations sort alike.
pub proof fn law_snapshot_is_order_free(v: RegistryView, w: RegistryView)
    requires
        registry::everything(v).to_multiset() == registry::everything(w).to_multiset(),
        forall|a: ContributionView, b: ContributionView|
            registry::everything(v).contains(a) && registry::everything(v).contains(b)
                && #[trigger] registry::snapshot_order()(a)
                == #[trigger] registry::snapshot_order()(b) ==> a == b,
    ensures
        registry::snapshot_of(v) == registry::snapshot_of(w),
{
    order::lemma_ordered_unique(
        registry::everything(v),
        registry::everything(w),
        registry::snapshot_order(),
    );
}

// ---------- the scope tree ----------

/// Disposing the child that was just created gives back the tree.
pub proof fn law_disposing_undoes_creating(
    t: Seq<ScopeView>,
    name: Seq<char>,
    owner: OwnerLease,
)
    requires
        scope_tree::tree_ok(t),
        scope_tree::child_error(t, scope_tree::root_path(), name) is None,
    ensures
        scope_tree::pruned(
            scope_tree::with_child(t, name, owner),
            scope_tree::child_path(name),
        ) == t,
{
    let root = scope_tree::root_path();
    let path = scope_tree::child_path(name);
    let w = scope_tree::with_child(t, name, owner);
    let x = scope_tree::record_at(t, root);
    let children = t[x].children;
    let n = t.len() as int;
    assert(t[x].path == root);
    assert(path.len() == 1 && path.last() == name);
    assert(!children.contains(path)) by {
        if children.contains(path) {
            let k = choose|k: int| 0 <= k < children.len() && children[k] == path;
            assert(children[k].len() > 0 && children[k].last() == name);
        }
    }
    assert(w[n].path == path);
    let i = scope_tree::record_at(w, path);
    assert(w[i].path == path);
    if i < n {
        assert(w[i].path == t[i].path);
        assert(children.contains(t[i].path));
    }
    assert(i == n);
    let rest = w.remove(i);
    assert(rest[x].path == root);
    let r = scope_tree::record_at(rest, root);
    assert(rest[r].path == root);
    assert(t[r].path == t[x].path);
    lemma_others_absent(children, path);
    assert(children.push(path).drop_last() =~= children);
    assert(scope_tree::pruned(w, path) =~= t);
}

proof fn lemma_others_absent(children: Seq<Seq<Seq<char>>>, path: Seq<Seq<char>>)
    requires
        !children.contains(path),
    ensures
        scope_tree::others(children, path) == children,
    decreases children.len(),
{
    if children.len() > 0 {
        let t = children.drop_last();
        assert(children[children.len() - 1] == children.last());
        assert(!t.contains(path)) by {
            if t.contains(path) {
                let k = choose|k: int| 0 <= k < t.len() && t[k] == path;
                assert(children[k] == path);
            }
        }
        lemma_others_absent(t, path);
        assert(t.push(children.last()) =~= children);
    }
}

/// The listing of a tree holds every record once, in the order of the displayed
/// paths. It is empty, or it begins with the root; every other record is a
/// childless child of the root with a name, and the root lists exactly those,
/// each once.
pub proof fn law_listings_begin_with_the_root(t: Seq<ScopeView>)
    requires
        scope_tree::tree_ok(t),
    ensures
        ({
            let root = scope_tree::root_path();
            let all = order::ordered(t, scope_tree::path_order());
            &&& all.to_multiset() == t.to_multiset()
            &&& all.no_duplicates()
            &&& order::is_ordered(all, scope_tree::path_order())
            &&& all.len() > 0 ==> {
                &&& all[0].path == root
                &&& all[0].parent is None
                &&& all[0].children.no_duplicates()
                &&& forall|i: int|
                    0 < i < all.len() ==> {
                        &&& (#[trigger] all[i]).path.len() == 1
                        &&& all[i].path[0].len() > 0
                        &&& all[i].parent == Some(root)
                        &&& all[i].children.len() == 0
                    }
                &&& forall|p: Seq<Seq<char>>| #[trigger]
                    all[0].children.contains(p) <==> exists|i: int|
                        0 < i < all.len() && (#[trigger] all[i]).path == p
            }
        }),
{
    let root = scope_tree::root_path();
    let key = scope_tree::path_order();
    let all = order::ordered(t, key);
    order::lemma_ordered(t, key);
    order::lemma_ordered_distinct(t, key, |x: ScopeView| x.path);
    assert forall|i: int, j: int| 0 <= i < all.len() && 0 <= j < all.len() && i != j implies all[i]
        != all[j] by {
        let f = |x: ScopeView| x.path;
        assert(f(all[i]) == f(all[j]) ==> i == j);
    }
    assert forall|i: int| 0 <= i < all.len() implies t.contains(#[trigger] all[i]) by {
        order::lemma_ordered_contains(t, key, all[i]);
        assert(all.contains(all[i]));
    }
    if all.len() > 0 {
        let x = scope_tree::record_at(t, root);
        assert(t[x].path == root);
        order::lemma_ordered_contains(t, key, t[x]);
        assert(t.contains(t[x]));
        let r = choose|r: int| 0 <= r < all.len() && all[r] == t[x];
        let head = all[0];
        assert(head.path == root) by {
            assert(t.contains(all[0]));
            let m = choose|m: int| 0 <= m < t.len() && t[m] == head;
            if t[m].path != root {
                assert(order::key_le(key(all[0]), key(all[r])));
                lemma_root_sorts_first(head.path);
                order::lemma_key_le_antisymmetric(key(head), key(t[x]));
                assert(key(head)[0] == key(t[x])[0]);
            }
        }
        let m = choose|m: int| 0 <= m < t.len() && t[m] == head;
        assert(t[m].path == t[x].path);
        assert(head == t[x]);
        assert forall|i: int| 0 < i < all.len() implies {
            &&& (#[trigger] all[i]).path.len() == 1
            &&& all[i].path[0].len() > 0
            &&& all[i].parent == Some(root)
            &&& all[i].children.len() == 0
        } by {
            assert(t.contains(all[i]));
            let k = choose|k: int| 0 <= k < t.len() && t[k] == all[i];
            if t[k].path == root {
                assert(t[k].path == t[x].path);
                assert(all[i] == all[0]);
            }
        }
        assert forall|p: Seq<Seq<char>>| #[trigger] head.children.contains(p) <==> exists|i: int|
            0 < i < all.len() && (#[trigger] all[i]).path == p by {
            if head.children.contains(p) {
                let k = choose|k: int| 0 <= k < head.children.len() && head.children[k] == p;
                assert(t[x].children[k].len() == 1 && scope_tree::known(t, t[x].children[k]));
                let q = scope_tree::record_at(t, p);
                assert(t[q].path == p);
                order::lemma_ordered_contains(t, key, t[q]);
                assert(t.contains(t[q]));
                let i = choose|i: int| 0 <= i < all.len() && all[i] == t[q];
                assert(i != 0);
                assert(all[i].path == p);
            }
            if exists|i: int| 0 < i < all.len() && (#[trigger] all[i]).path == p {
                let i = choose|i: int| 0 < i < all.len() && (#[trigger] all[i]).path == p;
                assert(t.contains(all[i]));
                let k = choose|k: int| 0 <= k < t.len() && t[k] == all[i];
                assert(all[i].path.len() == 1);
                assert(t[x].children.contains(t[k].path));
            }
        }
    }
}

/// The root sorts before a child, and is displayed otherwise.
proof fn lemma_root_sorts_first(path: Seq<Seq<char>>)
    requires
        path.len() == 1,
        path[0].len() > 0,
    ensures
        ({
            let a = services::scope_text(scope_tree::root_path());
            let b = services::scope_text(path);
            &&& a != b
            &&& order::key_le(
                Seq::<Seq<char>>::empty().push(a),
                Seq::<Seq<char>>::empty().push(b),
            )
        }),
{
    let a = services::scope_text(scope_tree::root_path());
    let b = services::scope_text(path);
    assert(a =~= "/"@);
    assert(b =~= "/"@ + path[0]);
    assert(b.len() > a.len());
    crate::text::lemma_text_le_longer("/"@, path[0]);
    let x = Seq::<Seq<char>>::empty().push(a);
    let y = Seq::<Seq<char>>::empty().push(b);
    assert(x[0] == a && y[0] == b);
}

/// Hooks are dispatched by their kind: a lookup gives the registered hooks of the
/// kind that was asked for, each as often as it is registered, and nothing else,
/// in the order of their scopes and names.
pub proof fn law_hooks_are_looked_up_by_kind(
    s: Seq<ContributionView>,
    kind: HookKind,
    c: ContributionView,
)
    ensures
        ({
            let r = order::ordered(registry::hooks_among(s, kind), registry::hook_order());
            &&& r.contains(c) <==> s.contains(c) && (c.kind matches KindView::Hook { hook, .. }
                && hook == kind)
            &&& r.contains(c) ==> r.to_multiset().count(c) == s.to_multiset().count(c)
            &&& forall|i: int, j: int|
                0 <= i <= j < r.len() ==> (#[trigger] r[i]).kind is Hook && (
                #[trigger] r[j]).kind is Hook && order::key_le(
                    seq![services::scope_text(r[i].scope), r[i].kind->Hook_name],
                    seq![services::scope_text(r[j].scope), r[j].kind->Hook_name],
                )
        }),
{
    broadcast use vstd::seq_lib::group_to_multiset_ensures;

    let among = registry::hooks_among(s, kind);
    let r = order::ordered(among, registry::hook_order());
    registry::lemma_hooks_among(s, kind, c);
    order::lemma_ordered(among, registry::hook_order());
    assert(r.to_multiset().count(c) == among.to_multiset().count(c));
    assert forall|i: int, j: int| 0 <= i <= j < r.len() implies (#[trigger] r[i]).kind is Hook && (
    #[trigger] r[j]).kind is Hook && order::key_le(
        seq![services::scope_text(r[i].scope), r[i].kind->Hook_name],
        seq![services::scope_text(r[j].scope), r[j].kind->Hook_name],
    ) by {
        registry::lemma_hooks_among(s, kind, r[i]);
        registry::lemma_hooks_among(s, kind, r[j]);
        assert(r.to_multiset().count(r[i]) > 0 && r.to_multiset().count(r[j]) > 0);
        assert(registry::hook_order()(r[i]) =~= seq![
            services::scope_text(r[i].scope),
            r[i].kind->Hook_name,
        ]);
        assert(registry::hook_order()(r[j]) =~= seq![
            services::scope_text(r[j].scope),
            r[j].kind->Hook_name,
        ]);
    }
}

// ---------- what a registration is for ----------

/// Registrations take the same slot if and only if they are of the same kind and
/// go by the same name in the same scope: services by their key, stages by their
/// slot and number, settings by the scope alone, hooks by their kind as well.
pub proof fn law_slots_tell_registrations_apart(a: ContributionView, b: ContributionView)
    ensures
        rules::slot_of(a) == rules::slot_of(b) <==> match (a.kind, b.kind) {
            (KindView::Command { name: x, .. }, KindView::Command { name: y, .. }) => a.scope
                == b.scope && x == y,
            (KindView::Tool { name: x, .. }, KindView::Tool { name: y, .. }) => a.scope == b.scope
                && x == y,
            (KindView::Service { key: x, .. }, KindView::Service { key: y, .. }) => x == y,
            (KindView::Keymap { key: x, .. }, KindView::Keymap { key: y, .. }) => a.scope
                == b.scope && x == y,
            (KindView::Theme { name: x, .. }, KindView::Theme { name: y, .. }) => a.scope
                == b.scope && x == y,
            (
                KindView::ProjectionStage { slot: x, ordering: m, .. },
                KindView::ProjectionStage { slot: y, ordering: n, .. },
            ) => a.scope == b.scope && x == y && m == n,
            (KindView::UiMount { name: x, .. }, KindView::UiMount { name: y, .. }) => a.scope
                == b.scope && x == y,
            (KindView::Guard { name: x, .. }, KindView::Guard { name: y, .. }) => a.scope
                == b.scope && x == y,
            (KindView::Settings(_), KindView::Settings(_)) => a.scope == b.scope,
            (KindView::Hook { name: x, hook: g }, KindView::Hook { name: y, hook: h }) => a.scope
                == b.scope && x == y && g == h,
            _ => false,
        },
{
}

/// A lookup finds an entry of its slot that no later entry of the slot follows,
/// and finds nothing only where no entry has the slot.
pub proof fn law_lookups_find_the_last_of_a_slot(s: Seq<ContributionView>, slot: Slot, i: int)
    requires
        0 <= i < s.len(),
    ensures
        rules::latest(s, slot) is None ==> rules::slot_of(s[i]) != slot,
        rules::latest(s, slot) matches Some(c) ==> rules::slot_of(c) == slot && s.contains(c),
        rules::slot_of(s[i]) == slot && (forall|j: int|
            i < j < s.len() ==> rules::slot_of(#[trigger] s[j]) != slot) ==> rules::latest(s, slot)
            == Some(s[i]),
{
    rules::lemma_last_place(s, slot);
    let p = rules::last_place(s, slot);
    if p >= 0 {
        assert(s.contains(s[p]));
    }
}

/// What was registered is what a lookup finds: a command, a tool, a stage, a
/// guard, a keymap or a hook as it is; a UI mount in the slot it asks for, or in
/// the main one; a theme with every given key set and every other key kept.
pub proof fn law_registrations_are_found(
    s: Seq<ContributionView>,
    c: ContributionView,
    name: Seq<char>,
)
    requires
        registry::entries_ok(s),
        !(c.kind is Service),
        c.kind is Theme ==> c.kind->Theme_overlay is Object,
    ensures
        c.kind is Command || c.kind is Tool || c.kind is ProjectionStage || c.kind is Guard
            || c.kind is Keymap || c.kind is Hook ==> rules::latest(
            registry::registered(s, c),
            rules::slot_of(c),
        ) == Some(c),
        c.kind is UiMount ==> rules::latest(registry::registered(s, c), rules::slot_of(c)) == Some(
            ContributionView {
                scope: c.scope,
                kind: KindView::UiMount {
                    name: c.kind->UiMount_name,
                    component: c.kind->component,
                    slot: if c.kind->UiMount_slot is Some {
                        c.kind->UiMount_slot
                    } else {
                        Some("main"@)
                    },
                },
            },
        ),
        c.kind is Theme ==> ({
            let given = c.kind->Theme_overlay->Object_0;
            let stood = rules::latest(s, rules::slot_of(c));
            let found = rules::latest(registry::registered(s, c), rules::slot_of(c));
            &&& found matches Some(t) && t.scope == c.scope && t.kind is Theme
                && t.kind->Theme_name == c.kind->Theme_name && t.kind->Theme_overlay is Object
            &&& stood is Some && last_given(given, name) is Some ==> json::lookup(
                found->0.kind->Theme_overlay->Object_0,
                name,
            ) == last_given(given, name)
            &&& stood is Some && last_given(given, name) is None ==> json::lookup(
                found->0.kind->Theme_overlay->Object_0,
                name,
            ) == json::lookup(stood->0.kind->Theme_overlay->Object_0, name)
            &&& stood is None ==> found == Some(c)
        }),
{
    let slot = rules::slot_of(c);
    rules::lemma_last_place(s, slot);
    let p = rules::last_place(s, slot);
    match c.kind {
        KindView::Keymap { .. } => {
            lemma_push_latest(s, c, slot);
        },
        KindView::Hook { .. } => {
            lemma_push_latest(s, c, slot);
        },
        KindView::Theme { overlay, .. } => {
            if p >= 0 {
                let given = overlay->Object_0;
                assert(registry::entry_ok(s[p]));
                law_overlay_merge_is_shallow(s[p].kind->Theme_overlay->Object_0, given, name);
                let t = registry::registered(s, c)[p];
                assert(rules::slot_of(t) == slot);
                assert(registry::registered(s, c) == rules::put(s, t));
                law_put_touches_one_slot(s, t, slot);
            } else {
                lemma_push_latest(s, c, slot);
            }
        },
        KindView::UiMount { .. } => {
            let t = registry::slotted(c);
            assert(rules::slot_of(t) == slot);
            law_put_touches_one_slot(s, t, slot);
        },
        KindView::Settings(_) => {},
        _ => {
            law_put_touches_one_slot(s, c, slot);
        },
    }
}

/// A registered hook adds itself to the entries and takes nothing away: hooks
/// stack.
pub proof fn law_hooks_and_keymaps_stack(s: Seq<ContributionView>, c: ContributionView)
    requires
        c.kind is Hook || c.kind is Keymap,
    ensures
        registry::registered(s, c).to_multiset() == s.to_multiset().insert(c),
{
    broadcast use vstd::seq_lib::group_to_multiset_ensures;

}

/// A set field of the incoming layer wins and an unset one keeps what is there,
/// field by field.
pub proof fn law_set_fields_win(a: SettingsView, b: SettingsView)
    ensures
        ({
            let m = rules::settings_over(a, b);
            &&& a.provider is None ==> m.provider == b.provider
            &&& b.provider is None ==> m.provider == a.provider
            &&& a.approval is None ==> m.approval == b.approval
            &&& b.approval is None ==> m.approval == a.approval
            &&& a.provider matches Some(x) ==> (b.provider matches Some(y) ==> (
            m.provider matches Some(z) && {
                &&& z.base_url == if y.base_url is Some { y.base_url } else { x.base_url }
                &&& z.model == if y.model is Some { y.model } else { x.model }
                &&& z.protocol == if y.protocol is Some { y.protocol } else { x.protocol }
                &&& z.key == if y.key is Some { y.key } else { x.key }
                &&& z.fake == if y.fake is Some { y.fake } else { x.fake }
            }))
            &&& a.approval matches Some(x) ==> (b.approval matches Some(y) ==> (
            m.approval matches Some(z) && {
                &&& z.auto_approve == if y.auto_approve is Some {
                    y.auto_approve
                } else {
                    x.auto_approve
                }
                &&& z.yolo == if y.yolo is Some { y.yolo } else { x.yolo }
            }))
        }),
{
}

/// A snapshot holds every entry and every published service, each as often as it
/// is there, and nothing else.
pub proof fn law_snapshots_hold_everything(v: RegistryView, c: ContributionView)
    ensures
        registry::snapshot_of(v).contains(c) <==> v.entries.contains(c) || exists|i: int|
            0 <= i < v.services.len() && (#[trigger] v.services[i]).key.scope == c.scope && c.kind
                == (KindView::Service {
                key: v.services[i].key,
                provider: v.services[i].provider,
                deps: v.services[i].deps,
            }),
        registry::snapshot_of(v).len() == v.entries.len() + v.services.len(),
{
    let sorted = order::ordered(v.services, services::entry_order());
    let listed = registry::as_contributions(sorted);
    let all = registry::everything(v);
    order::lemma_ordered(v.services, services::entry_order());
    order::lemma_ordered(all, registry::snapshot_order());
    order::lemma_ordered_contains(all, registry::snapshot_order(), c);
    if all.contains(c) && !v.entries.contains(c) {
        let k = choose|k: int| 0 <= k < all.len() && all[k] == c;
        if k < v.entries.len() {
            assert(v.entries[k] == c);
        }
        let e = sorted[k - v.entries.len()];
        assert(sorted.contains(e));
        order::lemma_ordered_contains(v.services, services::entry_order(), e);
        let i = choose|i: int| 0 <= i < v.services.len() && v.services[i] == e;
        assert(v.services[i].key.scope == c.scope);
    }
    if v.entries.contains(c) {
        let k = choose|k: int| 0 <= k < v.entries.len() && v.entries[k] == c;
        assert(all[k] == c);
    }
    if exists|i: int|
        0 <= i < v.services.len() && (#[trigger] v.services[i]).key.scope == c.scope && c.kind == (
        KindView::Service {
            key: v.services[i].key,
            provider: v.services[i].provider,
            deps: v.services[i].deps,
        }) {
        let i = choose|i: int|
            0 <= i < v.services.len() && (#[trigger] v.services[i]).key.scope == c.scope && c.kind
                == (KindView::Service {
                key: v.services[i].key,
                provider: v.services[i].provider,
                deps: v.services[i].deps,
            });
        let e = v.services[i];
        order::lemma_ordered_contains(v.services, services::entry_order(), e);
        assert(v.services.contains(e));
        let k = choose|k: int| 0 <= k < sorted.len() && sorted[k] == e;
        assert(listed[k] == c);
        assert(all[v.entries.len() + k] == c);
    }
}

/// What was removed by name is found no more, and no other slot changes.
pub proof fn law_removals_empty_their_slots(
    s: Seq<ContributionView>,
    removals: Seq<ContributionView>,
    slot: Slot,
)
    ensures
        (exists|k: int| 0 <= k < removals.len() && rules::slot_of(#[trigger] removals[k]) == slot)
            ==> rules::latest(registry::removed_from(s, removals), slot) is None,
        (forall|k: int| 0 <= k < removals.len() ==> rules::slot_of(#[trigger] removals[k]) != slot)
            ==> rules::latest(registry::removed_from(s, removals), slot) == rules::latest(s, slot),
    decreases removals.len(),
{
    if removals.len() > 0 {
        let d = removals.drop_last();
        law_removals_empty_their_slots(s, d, slot);
        let before = registry::removed_from(s, d);
        let gone = rules::slot_of(removals.last());
        assert(removals[removals.len() - 1] == removals.last());
        if gone == slot {
            lemma_cleared_has_none(before, slot);
            rules::lemma_last_place(rules::cleared(before, slot), slot);
        } else {
            lemma_cleared_latest(before, gone, slot);
            if exists|k: int|
                0 <= k < removals.len() && rules::slot_of(#[trigger] removals[k]) == slot {
                let k = choose|k: int|
                    0 <= k < removals.len() && rules::slot_of(#[trigger] removals[k]) == slot;
                assert(d[k] == removals[k]);
            } else {
                assert forall|k: int| 0 <= k < d.len() implies rules::slot_of(#[trigger] d[k])
                    != slot by {
                    assert(d[k] == removals[k]);
                }
            }
        }
    }
}

/// A set is staged for one scope: it is refused exactly if some contribution of
/// it is for another.
pub proof fn law_sets_are_for_one_scope(staged: Seq<ContributionView>, scope: Seq<Seq<char>>)
    ensures
        registry::stray_error(staged, scope) is Some <==> exists|k: int|
            0 <= k < staged.len() && (#[trigger] staged[k]).scope != scope,
    decreases staged.len(),
{
    if staged.len() > 0 {
        let d = staged.drop_last();
        law_sets_are_for_one_scope(d, scope);
        assert(staged[staged.len() - 1] == staged.last());
        if exists|k: int| 0 <= k < d.len() && (#[trigger] d[k]).scope != scope {
            let k = choose|k: int| 0 <= k < d.len() && (#[trigger] d[k]).scope != scope;
            assert(staged[k] == d[k]);
        }
        if exists|k: int| 0 <= k < staged.len() && (#[trigger] staged[k]).scope != scope {
            let k = choose|k: int| 0 <= k < staged.len() && (#[trigger] staged[k]).scope != scope;
            if k < d.len() {
                assert(d[k] == staged[k]);
            }
        }
    }
}

/// Services are removed through the graph: a removal by name is refused exactly
/// if it names one.
pub proof fn law_services_are_not_removed_by_name(removals: Seq<ContributionView>)
    ensures
        registry::service_removal_error(removals) is Some <==> exists|k: int|
            0 <= k < removals.len() && (#[trigger] removals[k]).kind is Service,
    decreases removals.len(),
{
    if removals.len() > 0 {
        let d = removals.drop_last();
        law_services_are_not_removed_by_name(d);
        assert(removals[removals.len() - 1] == removals.last());
        if exists|k: int| 0 <= k < d.len() && (#[trigger] d[k]).kind is Service {
            let k = choose|k: int| 0 <= k < d.len() && (#[trigger] d[k]).kind is Service;
            assert(removals[k] == d[k]);
        }
        if exists|k: int| 0 <= k < removals.len() && (#[trigger] removals[k]).kind is Service {
            let k = choose|k: int|
                0 <= k < removals.len() && (#[trigger] removals[k]).kind is Service;
            if k < d.len() {
                assert(d[k] == removals[k]);
            }
        }
    }
}

/// A name is given once: a command, tool, stage or mount is refused as a conflict
/// exactly if its slot is taken, by the registry or by an earlier contribution of
/// its own set. A tool needs a manifest that says whether it matters to a replay,
/// and a mount a slot that is a name.
pub proof fn law_names_are_given_once(
    entries: Seq<ContributionView>,
    published: Seq<EntryView>,
    seen: Seq<ContributionView>,
    c: ContributionView,
)
    ensures
        ({
            let taken = rules::latest(seen, rules::slot_of(c)) is Some || rules::latest(
                entries,
                rules::slot_of(c),
            ) is Some;
            let v = rules::violation(entries, published, seen, c);
            &&& c.kind is Command || c.kind is ProjectionStage ==> (v is Some <==> taken)
            &&& c.kind matches KindView::Tool { manifest, .. } ==> (v is None <==> !taken
                && manifest is Object && (json::member(
                manifest,
                "replay_relevant"@,
            ) matches Some(x) && x is Bool))
            &&& c.kind matches KindView::UiMount { slot, .. } ==> (v is None <==> !taken && (
            slot matches Some(t) ==> rules::slot_name_ok(t)))
            &&& (c.kind is Command || c.kind is ProjectionStage) && v is Some ==> v->0 is Conflict
            &&& c.kind matches KindView::Theme { overlay, .. } ==> (v is None
                <==> overlay is Object)
            &&& c.kind is Keymap || c.kind is Hook ==> v is None
            &&& c.kind matches KindView::Guard { monotonic, .. } ==> (v is Some <==> !monotonic
                && taken && (if rules::latest(seen, rules::slot_of(c)) is Some {
                rules::latest(seen, rules::slot_of(c))->0.kind->monotonic
            } else {
                rules::latest(entries, rules::slot_of(c))->0.kind->monotonic
            }))
            &&& c.kind matches KindView::Service { key, .. } ==> (v is None <==> key.scope
                == c.scope && rules::latest(seen, rules::slot_of(c)) is None && !services::holds(
                published,
                key,
            ))
        }),
{
}

/// A replacement names what it replaces: it is let through exactly if it carries
/// the name it is asked for, the slot is held, and its holder is the one that it
/// names.
pub proof fn law_replacements_name_their_predecessor(
    v: RegistryView,
    c: ContributionView,
    asked: Seq<char>,
    misnamed: Seq<char>,
    missing: Seq<char>,
    previous_holder: Seq<char>,
)
    ensures
        registry::replacement_error(v, c, asked, misnamed, missing, previous_holder) is None <==> {
            &&& rules::conflict_name(c) == asked
            &&& rules::latest(v.entries, rules::slot_of(c)) matches Some(e) && rules::holder_name(e)
                == previous_holder
        },
        rules::latest(registry::with_entry(v, c).entries, rules::slot_of(c)) == Some(c),
        registry::with_entry(v, c).services == v.services,
        c.kind matches KindView::Command { name, handler } ==> rules::conflict_name(c) == name
            && rules::holder_name(c) == handler,
        c.kind matches KindView::Tool { name, handler, .. } ==> rules::conflict_name(c) == name
            && rules::holder_name(c) == handler,
        c.kind matches KindView::ProjectionStage { slot, handler, .. } ==> rules::conflict_name(c)
            == slot && rules::holder_name(c) == handler,
        c.kind matches KindView::UiMount { name, component, .. } ==> rules::conflict_name(c) == name
            && rules::holder_name(c) == component,
        c.kind matches KindView::Guard { name, predicate, .. } ==> rules::conflict_name(c) == name
            && rules::holder_name(c) == predicate,
{
    law_put_touches_one_slot(v.entries, c, rules::slot_of(c));
}

/// A set is applied one contribution after the other: each is registered on top of
/// what the earlier ones left, services in the graph and everything else among
/// the entries.
pub proof fn law_sets_are_applied_in_order(
    v: RegistryView,
    removed: Seq<ContributionView>,
    staged: Seq<ContributionView>,
    c: ContributionView,
)
    ensures
        registry::steps(v, removed, Seq::empty()) == Some(v),
        registry::steps(v, removed, staged) is None ==> registry::steps(
            v,
            removed,
            staged.push(c),
        ) is None,
        registry::steps(v, removed, staged) matches Some(w) ==> {
            let after = registry::steps(v, removed, staged.push(c));
            &&& !(c.kind is Service) && !(c.kind is Theme) ==> after == Some(
                RegistryView {
                    entries: registry::registered(w.entries, c),
                    services: w.services,
                },
            )
            &&& c.kind matches KindView::Service { key, provider, deps } ==> (
            after matches Some(x) ==> x.entries == w.entries && x.services.last() == (EntryView {
                key,
                provider,
                deps,
            }))
            &&& c.kind matches KindView::Theme { overlay, .. } ==> (after is Some
                <==> overlay is Object)
        },
{
    assert(staged.push(c).drop_last() =~= staged);
}

proof fn lemma_without_overlays(
    s: Seq<ContributionView>,
    scope: Seq<Seq<char>>,
    c: ContributionView,
)
    ensures
        registry::without_overlays(s, scope).to_multiset().count(c) == if c.scope == scope && (
        c.kind is Settings || c.kind is Theme) {
            0
        } else {
            s.to_multiset().count(c)
        },
    decreases s.len(),
{
    broadcast use vstd::seq_lib::group_to_multiset_ensures;

    if s.len() > 0 {
        lemma_without_overlays(s.drop_last(), scope, c);
        assert(s =~= s.drop_last().push(s.last()));
    }
}

/// Recomposing forgets the overlays of a scope, its settings and themes, and
/// nothing else; then it overlays the given ones in their order.
pub proof fn law_recomposing_forgets_old_overlays(
    s: Seq<ContributionView>,
    scope: Seq<Seq<char>>,
    list: Seq<ContributionView>,
    next: ContributionView,
    c: ContributionView,
)
    ensures
        registry::without_overlays(s, scope).contains(c) <==> s.contains(c) && !(c.scope == scope
            && (c.kind is Settings || c.kind is Theme)),
        registry::overlaid(s, scope, Seq::empty()) == s,
        registry::overlaid(s, scope, list.push(next)) == if next.scope == scope && (
        next.kind is Settings || (next.kind is Theme && next.kind->Theme_overlay is Object)) {
            registry::registered(registry::overlaid(s, scope, list), next)
        } else {
            registry::overlaid(s, scope, list)
        },
{
    broadcast use vstd::seq_lib::group_to_multiset_ensures;

    lemma_without_overlays(s, scope, c);
    assert(list.push(next).drop_last() =~= list);
}

/// A plan displaces what it names, but no settings and, among the entries, no
/// service: the slots it names are free afterwards and all others are as they
/// were.
pub proof fn law_plans_displace_what_they_name(
    s: Seq<ContributionView>,
    removed: Seq<ContributionView>,
    slot: Slot,
)
    requires
        !(slot is Service) && !(slot is Settings),
    ensures
        (exists|k: int| 0 <= k < removed.len() && rules::slot_of(#[trigger] removed[k]) == slot)
            ==> rules::latest(registry::displaced(s, removed), slot) is None,
        (forall|k: int| 0 <= k < removed.len() ==> rules::slot_of(#[trigger] removed[k]) != slot)
            ==> rules::latest(registry::displaced(s, removed), slot) == rules::latest(s, slot),
    decreases removed.len(),
{
    if removed.len() > 0 {
        let d = removed.drop_last();
        law_plans_displace_what_they_name(s, d, slot);
        let before = registry::displaced(s, d);
        let last = removed.last();
        let gone = rules::slot_of(last);
        assert(removed[removed.len() - 1] == last);
        if gone == slot {
            lemma_cleared_has_none(before, slot);
            rules::lemma_last_place(rules::cleared(before, slot), slot);
        } else {
            lemma_cleared_latest(before, gone, slot);
            if exists|k: int|
                0 <= k < removed.len() && rules::slot_of(#[trigger] removed[k]) == slot {
                let k = choose|k: int|
                    0 <= k < removed.len() && rules::slot_of(#[trigger] removed[k]) == slot;
                assert(d[k] == removed[k]);
            } else {
                assert forall|k: int| 0 <= k < d.len() implies rules::slot_of(#[trigger] d[k])
                    != slot by {
                    assert(d[k] == removed[k]);
                }
            }
        }
    }
}

/// A child is created exactly below a present root, under a name that is not
/// empty and not taken.
pub proof fn law_children_have_names_of_their_own(
    t: Seq<ScopeView>,
    parent: Seq<Seq<char>>,
    name: Seq<char>,
)
    requires
        scope_tree::tree_ok(t),
    ensures
        scope_tree::child_error(t, parent, name) is None <==> parent.len() == 0 && (exists|i: int|
            0 <= i < t.len() && (#[trigger] t[i]).path.len() == 0) && name.len() > 0 && !(exists|
            i: int,
        |
            0 <= i < t.len() && (#[trigger] t[i]).path == seq![name]),
{
    let root = scope_tree::root_path();
    assert(parent.len() == 0 ==> parent =~= root);
    if exists|i: int| 0 <= i < t.len() && (#[trigger] t[i]).path.len() == 0 {
        let i = choose|i: int| 0 <= i < t.len() && (#[trigger] t[i]).path.len() == 0;
        assert(t[i].path =~= root);
        assert(scope_tree::known(t, root));
    }
    if scope_tree::known(t, root) {
        let r = scope_tree::record_at(t, root);
        assert(t[r].path == root);
        assert(t[r].path.len() == 0);
        let children = t[r].children;
        if scope_tree::name_taken(children, name) {
            let k = choose|k: int|
                0 <= k < children.len() && (#[trigger] children[k]).len() > 0 && children[k].last()
                    == name;
            assert(children[k].len() == 1 && scope_tree::known(t, children[k]));
            assert(children[k] =~= seq![name]);
            let i = choose|i: int| 0 <= i < t.len() && (#[trigger] t[i]).path == children[k];
            assert(t[i].path == seq![name]);
        }
        if exists|i: int| 0 <= i < t.len() && (#[trigger] t[i]).path == seq![name] {
            let i = choose|i: int| 0 <= i < t.len() && (#[trigger] t[i]).path == seq![name];
            assert(seq![name].len() == 1);
            assert(t[i].path != root);
            assert(children.contains(t[i].path));
            let k = choose|k: int| 0 <= k < children.len() && children[k] == t[i].path;
            assert(children[k].len() > 0 && children[k].last() == name);
        }
    }
}

/// A created child is recorded with its lease and listed below the root, and
/// nothing else changes.
pub proof fn law_children_are_recorded(
    t: Seq<ScopeView>,
    name: Seq<char>,
    owner: OwnerLease,
    i: int,
)
    requires
        scope_tree::tree_ok(t),
        scope_tree::known(t, scope_tree::root_path()),
        0 <= i < t.len(),
    ensures
        ({
            let w = scope_tree::with_child(t, name, owner);
            &&& w.len() == t.len() + 1
            &&& w.last().path == seq![name]
            &&& w.last().owner == owner
            &&& w.last().parent == Some(Seq::<Seq<char>>::empty())
            &&& w.last().children.len() == 0
            &&& w[i].path == t[i].path
            &&& w[i].owner == t[i].owner
            &&& w[i].parent == t[i].parent
            &&& t[i].path.len() == 0 ==> w[i].children == t[i].children.push(seq![name])
            &&& t[i].path.len() > 0 ==> w[i] == t[i]
        }),
{
    let root = scope_tree::root_path();
    let r = scope_tree::record_at(t, root);
    assert(t[r].path == root);
    assert(scope_tree::child_path(name) =~= seq![name]);
    if t[i].path.len() == 0 {
        assert(t[i].path =~= root);
        assert(i == r);
    }
}

/// A disposed scope has no record and no contributions any more, every other
/// scope keeps its record, and a refusal changes nothing.
pub proof fn law_disposed_scopes_are_gone(
    t: Seq<ScopeView>,
    v: RegistryView,
    path: Seq<Seq<char>>,
    other: Seq<Seq<char>>,
    force: bool,
)
    requires
        scope_tree::tree_ok(t),
        other != path,
    ensures
        ({
            let d = scope_tree::dispose_one(t, v, path, force);
            &&& d.refusal is None <==> scope_tree::known(t, path) && registry::removal_error(
                v,
                path,
                force,
            ) is None
            &&& d.refusal is Some ==> d.tree == t && d.registry == v
            &&& d.refusal is None ==> !scope_tree::known(d.tree, path) && (scope_tree::known(
                d.tree,
                other,
            ) <==> scope_tree::known(t, other)) && d.registry == registry::scope_removed(v, path)
        }),
{
    if scope_tree::known(t, path) {
        let i = scope_tree::record_at(t, path);
        assert(t[i].path == path);
        let rest = t.remove(i);
        let p = scope_tree::pruned(t, path);
        assert(p.len() == rest.len());
        assert forall|k: int| 0 <= k < p.len() implies (#[trigger] p[k]).path == rest[k].path by {}
        assert forall|k: int| 0 <= k < rest.len() implies (#[trigger] rest[k]).path != path by {
            let m = if k < i {
                k
            } else {
                k + 1
            };
            assert(rest[k] == t[m]);
            assert(m != i);
        }
        if scope_tree::known(p, path) {
            let k = choose|k: int| 0 <= k < p.len() && (#[trigger] p[k]).path == path;
            assert(rest[k].path == path);
        }
        if scope_tree::known(p, other) {
            let k = choose|k: int| 0 <= k < p.len() && (#[trigger] p[k]).path == other;
            let m = if k < i {
                k
            } else {
                k + 1
            };
            assert(rest[k] == t[m]);
            assert(t[m].path == other);
        }
        if scope_tree::known(t, other) {
            let k = choose|k: int| 0 <= k < t.len() && (#[trigger] t[k]).path == other;
            let m = if k < i {
                k
            } else {
                k - 1
            };
            assert(rest[m] == t[k]);
            assert(p[m].path == other);
        }
    }
}

/// Scopes are disposed one after the other, up to the first refusal; a scope
/// without children is disposed by itself, and one with children after them.
pub proof fn law_children_are_disposed_first(
    t: Seq<ScopeView>,
    v: RegistryView,
    list: Seq<Seq<Seq<char>>>,
    path: Seq<Seq<char>>,
    force: bool,
)
    ensures
        scope_tree::dispose_each(t, v, Seq::empty(), force) == (scope_tree::Disposal {
            tree: t,
            registry: v,
            refusal: None,
        }),
        ({
            let d = scope_tree::dispose_each(t, v, list, force);
            let e = scope_tree::dispose_each(t, v, list.push(path), force);
            &&& d.refusal is Some ==> e == d
            &&& d.refusal is None ==> e == scope_tree::dispose_one(d.tree, d.registry, path, force)
        }),
        !scope_tree::known(t, path) ==> scope_tree::disposal(t, v, path, force).refusal is Some,
        (scope_tree::known(t, path) && t[scope_tree::record_at(t, path)].children == list) ==> (
        scope_tree::disposal(t, v, path, force) == scope_tree::dispose_each(
            t,
            v,
            list.push(path),
            force,
        )),
{
    assert(list.push(path).drop_last() =~= list);
}

/// The first violation of a set is the one it is refused with, each
/// contribution checked against those before it.
pub proof fn law_the_first_violation_counts(
    entries: Seq<ContributionView>,
    published: Seq<EntryView>,
    staged: Seq<ContributionView>,
    c: ContributionView,
)
    ensures
        rules::set_violation(entries, published, Seq::empty()) is None,
        rules::set_violation(entries, published, staged) is Some ==> rules::set_violation(
            entries,
            published,
            staged.push(c),
        ) == rules::set_violation(entries, published, staged),
        rules::set_violation(entries, published, staged) is None ==> rules::set_violation(
            entries,
            published,
            staged.push(c),
        ) == rules::violation(entries, published, staged, c),
{
    assert(staged.push(c).drop_last() =~= staged);
}

/// A conflict names the slot and both sides: who holds it and who asks for
/// it. An earlier contribution of the same set holds it before the registry.
pub proof fn law_conflicts_name_both_sides(
    entries: Seq<ContributionView>,
    published: Seq<EntryView>,
    seen: Seq<ContributionView>,
    c: ContributionView,
    e: ContributionView,
)
    requires
        c.kind is Command,
        e.kind is Command,
    ensures
        rules::latest(seen, rules::slot_of(c)) == Some(e) ==> rules::violation(
            entries,
            published,
            seen,
            c,
        ) == Some(
            crate::errors::ScopeErrorView::Conflict {
                kind: "command"@,
                scope: c.scope,
                name: c.kind->Command_name,
                holder: e.kind->Command_handler,
                challenger: c.kind->Command_handler,
            },
        ),
        (rules::latest(seen, rules::slot_of(c)) is None && rules::latest(entries, rules::slot_of(c))
            == Some(e)) ==> rules::violation(entries, published, seen, c) == Some(
            crate::errors::ScopeErrorView::Conflict {
                kind: "command"@,
                scope: c.scope,
                name: c.kind->Command_name,
                holder: e.kind->Command_handler,
                challenger: c.kind->Command_handler,
            },
        ),
{
}

/// A secret is referred to completely: by a variable with a name, or by a
/// service and an account.
pub proof fn law_secrets_are_referred_to_completely(
    scope: Seq<Seq<char>>,
    s: SettingsView,
)
    ensures
        (s.provider is None || s.provider->0.key is None) ==> rules::settings_error(
            scope,
            s,
        ) is None,
        (s.provider is Some && s.provider->0.key is Some) ==> (rules::settings_error(scope, s)
            is None <==> match s.provider->0.key->0 {
            contribution::KeyReferenceView::Env { name } => name.len() > 0,
            contribution::KeyReferenceView::Keychain { service, account } => service.len() > 0
                && account.len() > 0,
        }),
{
}

/// A letter or digit of ASCII, the hyphen or the underscore.
pub open spec fn is_plain(c: char) -> bool {
    let n = c as int;
    ('a' as int <= n <= 'z' as int) || ('A' as int <= n <= 'Z' as int) || ('0' as int <= n <= '9' as int)
        || c == '-' || c == '_'
}

proof fn lemma_plain(c: char)
    ensures
        rules::slot_char(c) == is_plain(c),
{
}

/// A mount's slot is a short plain name: a character outside the letters, the
/// digits, the hyphen and the underscore is refused, and so is the empty name.
pub proof fn law_slot_names_are_plain(scope: Seq<Seq<char>>, name: Seq<char>, i: int)
    ensures
        rules::ui_slot_error(scope, None) is None,
        rules::ui_slot_error(scope, Some(Seq::empty())) is Some,
        0 <= i < name.len() && !is_plain(name[i]) ==> rules::ui_slot_error(
            scope,
            Some(name),
        ) is Some,
        vstd::utf8::encode_utf8(name).len() > 32 ==> rules::ui_slot_error(
            scope,
            Some(name),
        ) is Some,
        (name.len() > 0 && vstd::utf8::encode_utf8(name).len() <= 32 && forall|j: int|
            0 <= j < name.len() ==> is_plain(#[trigger] name[j]))
            ==> rules::ui_slot_error(scope, Some(name)) is None,
{
    if forall|j: int| 0 <= j < name.len() ==> is_plain(#[trigger] name[j]) {
        assert forall|j: int| 0 <= j < name.len() implies rules::slot_char(#[trigger] name[j]) by {
            assert(is_plain(name[j]));
        }
    }
    if 0 <= i < name.len() {
        lemma_plain(name[i]);
    }
}

proof fn lemma_outside_exact(
    edges: Seq<DependencyView>,
    scope: Seq<Seq<char>>,
    d: DependencyView,
)
    ensures
        registry::outside(edges, scope).contains(d) <==> edges.contains(d) && d.key.scope != scope,
    decreases edges.len(),
{
    if edges.len() > 0 {
        let r = edges.drop_last();
        let x = edges.last();
        lemma_outside_exact(r, scope, d);
        assert(edges =~= r.push(x));
        assert(r.push(x).contains(d) <==> r.contains(d) || d == x) by {
            if r.contains(d) {
                let k = choose|k: int| 0 <= k < r.len() && r[k] == d;
                assert(r.push(x)[k] == d);
            }
            if d == x {
                assert(r.push(x)[r.len() as int] == d);
            }
            if r.push(x).contains(d) {
                let k = choose|k: int| 0 <= k < r.push(x).len() && r.push(x)[k] == d;
                if k < r.len() {
                    assert(r[k] == d);
                }
            }
        }
        if x.key.scope != scope {
            let o = registry::outside(r, scope);
            assert(o.push(x).contains(d) <==> o.contains(d) || d == x) by {
                if o.contains(d) {
                    let k = choose|k: int| 0 <= k < o.len() && o[k] == d;
                    assert(o.push(x)[k] == d);
                }
                if d == x {
                    assert(o.push(x)[o.len() as int] == d);
                }
                if o.push(x).contains(d) {
                    let k = choose|k: int| 0 <= k < o.push(x).len() && o.push(x)[k] == d;
                    if k < o.len() {
                        assert(o[k] == d);
                    }
                }
            }
        }
    }
}

proof fn lemma_outside_dependents_exact(
    s: Seq<EntryView>,
    list: Seq<EntryView>,
    scope: Seq<Seq<char>>,
    d: DependencyView,
)
    ensures
        registry::outside_dependents(s, list, scope).contains(d) <==> d.key.scope != scope && exists|
            i: int,
        |
            0 <= i < list.len() && (#[trigger] list[i]).key.scope == scope && services::dependents(
                s,
                list[i].key,
            ).contains(d),
    decreases list.len(),
{
    if list.len() > 0 {
        let r = list.drop_last();
        lemma_outside_dependents_exact(s, r, scope, d);
        assert(list[list.len() - 1] == list.last());
        let rest = registry::outside_dependents(s, r, scope);
        let own = registry::outside(services::dependents(s, list.last().key), scope);
        lemma_outside_exact(services::dependents(s, list.last().key), scope, d);
        if list.last().key.scope == scope {
            assert((rest + own).contains(d) <==> rest.contains(d) || own.contains(d)) by {
                if rest.contains(d) {
                    let k = choose|k: int| 0 <= k < rest.len() && rest[k] == d;
                    assert((rest + own)[k] == d);
                }
                if own.contains(d) {
                    let k = choose|k: int| 0 <= k < own.len() && own[k] == d;
                    assert((rest + own)[rest.len() + k] == d);
                }
                if (rest + own).contains(d) {
                    let k = choose|k: int| 0 <= k < (rest + own).len() && (rest + own)[k] == d;
                    if k < rest.len() {
                        assert(rest[k] == d);
                    } else {
                        assert(own[k - rest.len()] == d);
                    }
                }
            }
        }
        if exists|i: int|
            0 <= i < r.len() && (#[trigger] r[i]).key.scope == scope && services::dependents(
                s,
                r[i].key,
            ).contains(d) {
            let i = choose|i: int|
                0 <= i < r.len() && (#[trigger] r[i]).key.scope == scope && services::dependents(
                    s,
                    r[i].key,
                ).contains(d);
            assert(list[i] == r[i]);
        }
        if exists|i: int|
            0 <= i < list.len() && (#[trigger] list[i]).key.scope == scope && services::dependents(
                s,
                list[i].key,
            ).contains(d) {
            let i = choose|i: int|
                0 <= i < list.len() && (#[trigger] list[i]).key.scope == scope
                    && services::dependents(s, list[i].key).contains(d);
            if i < r.len() {
                assert(r[i] == list[i]);
            }
        }
    }
}

/// The removal of a scope is refused exactly where it is not forced and a
/// publication of another scope depends on one of its own; the refusal lists
/// exactly those that do.
pub proof fn law_scopes_with_dependents_stay(
    v: RegistryView,
    scope: Seq<Seq<char>>,
    d: DependencyView,
)
    ensures
        registry::removal_error(v, scope, true) is None,
        registry::stranded(v.services, scope).contains(d) <==> d.key.scope != scope && exists|
            i: int,
        |
            0 <= i < v.services.len() && (#[trigger] v.services[i]).key.scope == scope
                && crate::service_laws::declares(v.services, v.services[i].key, d),
        registry::stranded(v.services, scope).len() > 0 ==> registry::removal_error(v, scope, false)
            == Some(
            crate::errors::ScopeErrorView::DependentsRemain {
                scope,
                dependents: registry::stranded(v.services, scope),
            },
        ),
        registry::stranded(v.services, scope).len() == 0 ==> registry::removal_error(
            v,
            scope,
            false,
        ) is None,
{
    let s = v.services;
    let list = order::ordered(s, services::entry_order());
    lemma_outside_dependents_exact(s, list, scope, d);
    if exists|i: int|
        0 <= i < list.len() && (#[trigger] list[i]).key.scope == scope && services::dependents(
            s,
            list[i].key,
        ).contains(d) {
        let i = choose|i: int|
            0 <= i < list.len() && (#[trigger] list[i]).key.scope == scope && services::dependents(
                s,
                list[i].key,
            ).contains(d);
        order::lemma_ordered_contains(s, services::entry_order(), list[i]);
        assert(list.contains(list[i]));
        let k = choose|k: int| 0 <= k < s.len() && s[k] == list[i];
        crate::service_laws::law_dependents_are_declarations(s, s[k].key, d);
        assert(s[k].key.scope == scope);
    }
    if exists|i: int|
        0 <= i < s.len() && (#[trigger] s[i]).key.scope == scope && crate::service_laws::declares(
            s,
            s[i].key,
            d,
        ) {
        let i = choose|i: int|
            0 <= i < s.len() && (#[trigger] s[i]).key.scope == scope
                && crate::service_laws::declares(s, s[i].key, d);
        crate::service_laws::law_dependents_are_declarations(s, s[i].key, d);
        order::lemma_ordered_contains(s, services::entry_order(), s[i]);
        assert(s.contains(s[i]));
        let k = choose|k: int| 0 <= k < list.len() && list[k] == s[i];
        assert(list[k].key.scope == scope);
    }
}

/// A contribution that can be replaced is replaced by its scope and identity,
/// and one without an identity never is.
pub proof fn law_overrides_go_by_scope_and_identity(c: ContributionView)
    ensures
        registry::override_key(c) is Some <==> contribution::identity(c.kind) is Some,
        registry::override_key(c) matches Some(k) ==> k.0 == c.scope && contribution::identity(
            c.kind,
        ) == Some(k.1),
{
}

/// A staged service is added exactly where its dependencies are in reach and
/// close no cycle and its key is free; a plan that names the key frees it first.
pub proof fn law_services_are_added_where_they_fit(
    v: RegistryView,
    removed: Seq<ContributionView>,
    c: ContributionView,
)
    requires
        c.kind is Service,
    ensures
        ({
            let key = c.kind->Service_key;
            let provider = c.kind->Service_provider;
            let deps = c.kind->Service_deps;
            let named = exists|i: int|
                0 <= i < removed.len() && (#[trigger] removed[i]).kind is Service
                    && removed[i].kind->Service_key == key;
            let base = if named {
                services::without(v.services, key)
            } else {
                v.services
            };
            let after = registry::step(v, removed, c);
            &&& after is Some <==> services::reach_error(deps, key.scope) is None
                && services::layered(
                services::graph_with(
                    base,
                    KeyView { scope: key.scope, name: provider.contract.name },
                    deps,
                ),
            ) && key.name == provider.contract.name && !services::holds(base, key)
            &&& after matches Some(w) ==> w.entries == v.entries && w.services == base.push(
                EntryView { key, provider, deps },
            )
        }),
{
    let key = c.kind->Service_key;
    if exists|i: int|
        0 <= i < removed.len() && (#[trigger] removed[i]).kind is Service
            && removed[i].kind->Service_key == key {
        let i = choose|i: int|
            0 <= i < removed.len() && (#[trigger] removed[i]).kind is Service
                && removed[i].kind->Service_key == key;
        assert(rules::slot_of(removed[i]) == (Slot::Service { key }));
        assert(registry::plan_names(removed, key));
    }
    if registry::plan_names(removed, key) {
        let i = choose|i: int|
            0 <= i < removed.len() && rules::slot_of(#[trigger] removed[i]) == (Slot::Service {
                key,
            });
        assert(removed[i].kind is Service && removed[i].kind->Service_key == key);
    }
}

/// A theme is merged into the one that stands in its place, its own fields
/// winning; a mount without a slot goes into the main one.
pub proof fn law_themes_merge_and_mounts_have_a_slot(
    s: Seq<ContributionView>,
    c: ContributionView,
    e: ContributionView,
)
    ensures
        (c.kind is Theme && rules::latest(s, rules::slot_of(c)) == Some(e)) ==> (rules::latest(
            registry::registered(s, c),
            rules::slot_of(c),
        ) matches Some(x) && x.scope == c.scope && x.kind is Theme && x.kind->Theme_name
            == c.kind->Theme_name && x.kind->Theme_overlay == json::JsonView::Object(
            json::merged(e.kind->Theme_overlay->Object_0, c.kind->Theme_overlay->Object_0),
        )),
        (c.kind is Theme && rules::latest(s, rules::slot_of(c)) is None) ==> registry::registered(
            s,
            c,
        ) == s.push(c),
        c.kind matches KindView::UiMount { name, component, slot } ==> {
            let x = registry::slotted(c);
            &&& x.scope == c.scope
            &&& x.kind is UiMount
            &&& x.kind->UiMount_name == name
            &&& x.kind->component == component
            &&& slot is Some ==> x.kind->UiMount_slot == slot
            &&& slot is None ==> x.kind->UiMount_slot == Some("main"@)
            &&& registry::registered(s, c) == rules::put(s, x)
        },
{
    if c.kind is Theme && rules::latest(s, rules::slot_of(c)) == Some(e) {
        let x = ContributionView {
            scope: c.scope,
            kind: KindView::Theme {
                name: c.kind->Theme_name,
                overlay: json::JsonView::Object(
                    json::merged(
                        e.kind->Theme_overlay->Object_0,
                        c.kind->Theme_overlay->Object_0,
                    ),
                ),
            },
        };
        assert(rules::slot_of(x) == rules::slot_of(c));
        assert(registry::registered(s, c) == rules::put(s, x));
        law_put_touches_one_slot(s, x, rules::slot_of(c));
    }
}

/// A staged theme that is no object and a service that does not fit are the only
/// steps that are refused, the theme as what it is.
pub proof fn law_only_themes_and_services_are_refused(
    v: RegistryView,
    removed: Seq<ContributionView>,
    c: ContributionView,
    e: crate::errors::ScopeErrorView,
)
    ensures
        registry::step(v, removed, c) is None ==> c.kind is Service || (c.kind is Theme
            && !(c.kind->Theme_overlay is Object)),
        c.kind is Theme ==> (registry::refuses(v, removed, c, e) <==> e == (
        crate::errors::ScopeErrorView::InvalidContribution {
            scope: c.scope,
            reason: "theme overlay must be a JSON object (R-19 validated overlay)"@,
        })),
        !(c.kind is Theme) && !(c.kind is Service) ==> !registry::refuses(v, removed, c, e),
        (c.kind is Service && registry::refuses(v, removed, c, e)) ==> e is Service,
{
}

/// A snapshot goes by the displayed scope, the tag of the kind, the name, the
/// number of a stage and at last the encoding.
pub proof fn law_snapshots_go_by_scope_kind_and_name(c: ContributionView)
    ensures
        ({
            let k = registry::snapshot_order()(c);
            &&& k.len() == 5
            &&& k[0] == services::scope_text(c.scope)
            &&& k[1] == contribution::tag(c.kind)
            &&& c.kind matches KindView::Command { name, .. } ==> k[2] == name
            &&& c.kind matches KindView::Tool { name, .. } ==> k[2] == name
            &&& c.kind matches KindView::Service { key, .. } ==> k[2] == key.name
            &&& c.kind matches KindView::Keymap { key, .. } ==> k[2] == key
            &&& c.kind matches KindView::Theme { name, .. } ==> k[2] == name
            &&& c.kind matches KindView::ProjectionStage { slot, ordering, .. } ==> k[2] == slot
                && k[3] == registry::fixed_digits(ordering as nat, 10)
            &&& c.kind matches KindView::UiMount { name, .. } ==> k[2] == name
            &&& c.kind matches KindView::Guard { name, .. } ==> k[2] == name
            &&& c.kind matches KindView::Hook { name, .. } ==> k[2] == name
            &&& c.kind is Settings ==> k[2].len() == 0
            &&& !(c.kind is ProjectionStage) ==> k[3].len() == 0
            &&& k[4] == json::json_text(contribution::kind_json(c.kind))
        }),
{
}

/// The holder of a service is shown by its module and generation.
pub proof fn law_holders_are_shown_by_module_and_generation(p: services::ProviderView)
    ensures
        rules::provider_identity(p) == p.module_id + "@"@ + crate::text::decimal(
            p.generation as nat,
        ),
{
}

/// A secret reference is shown with its fields, each quoted.
pub proof fn law_references_are_shown_with_their_fields(name: Seq<char>, account: Seq<char>)
    ensures
        rules::reference_text(contribution::KeyReferenceView::Env { name }) == "Env { name: "@
            + crate::text::debug_text(name) + " }"@,
        rules::reference_text(
            contribution::KeyReferenceView::Keychain { service: name, account },
        ) == "Keychain { service: "@ + crate::text::debug_text(name) + ", account: "@
            + crate::text::debug_text(account) + " }"@,
{
}

/// A plan takes every service that it names out of the graph, and nothing else.
pub proof fn law_plans_displace_the_services_they_name(
    s: Seq<EntryView>,
    removed: Seq<ContributionView>,
    c: ContributionView,
)
    ensures
        registry::displaced_services(s, Seq::empty()) == s,
        c.kind matches KindView::Service { key, .. } ==> registry::displaced_services(
            s,
            removed.push(c),
        ) == services::without(registry::displaced_services(s, removed), key),
        !(c.kind is Service) ==> registry::displaced_services(s, removed.push(c))
            == registry::displaced_services(s, removed),
{
    assert(removed.push(c).drop_last() =~= removed);
}

} // verus!
