//! What holds of snapshots: what a removal takes and leaves, and that the order
//! of registration does not show.
use vstd::prelude::*;
use vstd::utf8::*;
use crate::contribution;
use crate::contribution::{ContributionView, KindView};
use crate::json_laws;
use crate::order;
use crate::registry;
use crate::registry::RegistryView;
use crate::registry_laws;
use crate::rules;
use crate::services;
use crate::services::{EntryView, KeyView};
use crate::text;

verus! {

// ---------- what a registry holds ----------

proof fn lemma_added<A>(a: Seq<A>, b: Seq<A>)
    ensures
        (a + b).to_multiset() == a.to_multiset().add(b.to_multiset()),
    decreases b.len(),
{
    broadcast use vstd::seq_lib::group_to_multiset_ensures;

    if b.len() == 0 {
        assert(a + b =~= a);
        assert((a + b).to_multiset() =~= a.to_multiset().add(b.to_multiset()));
    } else {
        lemma_added(a, b.drop_last());
        assert(b =~= b.drop_last().push(b.last()));
        assert(a + b =~= (a + b.drop_last()).push(b.last()));
        assert((a + b).to_multiset() =~= a.to_multiset().add(b.to_multiset()));
    }
}

spec fn published_order() -> spec_fn(ContributionView) -> Seq<Seq<char>> {
    |c: ContributionView|
        match c.kind {
            KindView::Service { key, .. } => seq![services::key_text(key)],
            _ => Seq::empty(),
        }
}

/// A registry holds its entries and its publications.
proof fn lemma_everything(v: RegistryView)
    ensures
        registry::everything(v).to_multiset() == v.entries.to_multiset().add(
            registry::as_contributions(v.services).to_multiset(),
        ),
        registry::snapshot_of(v).to_multiset() == registry::everything(v).to_multiset(),
{
    let f = |e: EntryView| registry::as_contribution(e);
    order::lemma_ordered_map(v.services, services::entry_order(), f, published_order());
    order::lemma_ordered(registry::as_contributions(v.services), published_order());
    let published = registry::as_contributions(
        order::ordered(v.services, services::entry_order()),
    );
    assert(published == order::ordered(
        registry::as_contributions(v.services),
        published_order(),
    ));
    lemma_added(v.entries, published);
    order::lemma_ordered(registry::everything(v), registry::snapshot_order());
}

// ---------- removing a scope ----------

proof fn lemma_entries_part(s: Seq<ContributionView>, scope: Seq<Seq<char>>)
    ensures
        registry::entries_in(s, scope, true).to_multiset().add(
            registry::entries_in(s, scope, false).to_multiset(),
        ) == s.to_multiset(),
    decreases s.len(),
{
    broadcast use vstd::seq_lib::group_to_multiset_ensures;

    if s.len() == 0 {
        assert(registry::entries_in(s, scope, true).to_multiset().add(
            registry::entries_in(s, scope, false).to_multiset(),
        ) =~= s.to_multiset());
    } else {
        lemma_entries_part(s.drop_last(), scope);
        assert(s =~= s.drop_last().push(s.last()));
        assert(registry::entries_in(s, scope, true).to_multiset().add(
            registry::entries_in(s, scope, false).to_multiset(),
        ) =~= s.to_multiset());
    }
}

proof fn lemma_services_part(s: Seq<EntryView>, marks: Seq<bool>)
    ensures
        registry::as_contributions(services::pick(s, marks, true)).to_multiset().add(
            registry::as_contributions(services::pick(s, marks, false)).to_multiset(),
        ) == registry::as_contributions(s).to_multiset(),
    decreases s.len(),
{
    broadcast use vstd::seq_lib::group_to_multiset_ensures;

    let yes = registry::as_contributions(services::pick(s, marks, true));
    let no = registry::as_contributions(services::pick(s, marks, false));
    let all = registry::as_contributions(s);
    if s.len() == 0 {
        assert(yes =~= Seq::empty() && no =~= Seq::empty() && all =~= Seq::empty());
        assert(yes.to_multiset().add(no.to_multiset()) =~= all.to_multiset());
    } else {
        let t = s.drop_last();
        let c = registry::as_contribution(s.last());
        lemma_services_part(t, marks);
        let y = registry::as_contributions(services::pick(t, marks, true));
        let n = registry::as_contributions(services::pick(t, marks, false));
        assert(all =~= registry::as_contributions(t).push(c));
        if marks[s.len() - 1] {
            assert(yes =~= y.push(c));
            assert(no =~= n);
        } else {
            assert(yes =~= y);
            assert(no =~= n.push(c));
        }
        assert(yes.to_multiset().add(no.to_multiset()) =~= all.to_multiset());
    }
}

proof fn lemma_own(s: Seq<ContributionView>, scope: Seq<Seq<char>>, c: ContributionView)
    requires
        registry::entries_in(s, scope, true).contains(c),
    ensures
        c.scope == scope,
    decreases s.len(),
{
    let all = registry::entries_in(s, scope, true);
    let k = choose|k: int| 0 <= k < all.len() && all[k] == c;
    if s.len() > 0 {
        let rest = registry::entries_in(s.drop_last(), scope, true);
        if k < rest.len() {
            assert(rest[k] == c);
            assert(rest.contains(c));
            lemma_own(s.drop_last(), scope, c);
        }
    }
}

/// Removing a scope splits what the registry held: what is removed and what
/// stays make up what was there, nothing of the scope stays, and what is
/// removed of other scopes are services.
pub proof fn law_removal_splits_the_snapshot(v: RegistryView, scope: Seq<Seq<char>>)
    ensures
        ({
            let removed = order::ordered(registry::going(v, scope), registry::snapshot_order());
            let after = registry::snapshot_of(registry::scope_removed(v, scope));
            &&& removed.to_multiset().add(after.to_multiset()) == registry::snapshot_of(
                v,
            ).to_multiset()
            &&& forall|c: ContributionView| #[trigger] after.contains(c) ==> c.scope != scope
            &&& forall|c: ContributionView| #[trigger]
                removed.contains(c) && c.scope != scope ==> c.kind is Service
        }),
{
    broadcast use vstd::seq_lib::group_to_multiset_ensures;

    let w = registry::scope_removed(v, scope);
    let going = registry::going(v, scope);
    let removed = order::ordered(going, registry::snapshot_order());
    let after = registry::snapshot_of(w);
    let marks = services::falling(v.services, scope);
    lemma_everything(v);
    lemma_everything(w);
    lemma_entries_part(v.entries, scope);
    lemma_services_part(v.services, marks);
    lemma_added(
        registry::as_contributions(registry::fallen(v, scope)),
        registry::entries_in(v.entries, scope, true),
    );
    order::lemma_ordered(going, registry::snapshot_order());
    assert(removed.to_multiset().add(after.to_multiset()) =~= registry::snapshot_of(
        v,
    ).to_multiset());
    registry_laws::law_scope_removal_is_complete(v, scope);
    assert forall|c: ContributionView| #[trigger] after.contains(c) implies c.scope != scope by {
        assert(after.to_multiset().count(c) > 0);
        let published = registry::as_contributions(w.services);
        if w.entries.to_multiset().count(c) > 0 {
            assert(w.entries.contains(c));
        } else {
            assert(published.to_multiset().count(c) > 0);
            assert(published.contains(c));
            let k = choose|k: int| 0 <= k < published.len() && published[k] == c;
            assert(w.services.contains(w.services[k]));
        }
    }
    assert forall|c: ContributionView| #[trigger]
        removed.contains(c) && c.scope != scope implies c.kind is Service by {
        assert(removed.to_multiset().count(c) > 0);
        let fallen = registry::as_contributions(registry::fallen(v, scope));
        let own = registry::entries_in(v.entries, scope, true);
        if own.to_multiset().count(c) > 0 {
            assert(own.contains(c));
            lemma_own(v.entries, scope, c);
        } else {
            assert(fallen.to_multiset().count(c) > 0);
            assert(fallen.contains(c));
        }
    }
}

/// Removing a scope a second time takes nothing: it is not refused, removes
/// nothing, cascades to no scope and changes nothing.
pub proof fn law_a_second_removal_takes_nothing(
    v: RegistryView,
    scope: Seq<Seq<char>>,
    force: bool,
)
    ensures
        ({
            let w = registry::scope_removed(v, scope);
            &&& registry::removal_error(w, scope, force) is None
            &&& registry::going(w, scope).len() == 0
            &&& registry::cascade(w, scope).len() == 0
            &&& registry::scope_removed(w, scope) == w
        }),
{
    let w = registry::scope_removed(v, scope);
    let s = w.services;
    registry_laws::law_scope_removal_is_complete(v, scope);
    assert forall|i: int| 0 <= i < s.len() implies (#[trigger] s[i]).key.scope != scope by {
        assert(s.contains(s[i]));
    }
    assert forall|i: int| 0 <= i < w.entries.len() implies (#[trigger] w.entries[i]).scope
        != scope by {
        assert(w.entries.contains(w.entries[i]));
    }
    assert forall|key: KeyView| !services::falls_with(s, scope, key) by {
        if services::falls_with(s, scope, key) {
            let chain = choose|chain: Seq<KeyView>| #[trigger]
                services::is_chain(s, scope, chain) && chain.last() == key;
            let k = services::place_of(s, chain[0]);
            assert(s[k].key == chain[0]);
        }
    }
    let marks = services::falling(s, scope);
    assert forall|i: int| 0 <= i < marks.len() implies !(#[trigger] marks[i]) by {
        assert(!services::falls_with(s, scope, s[i].key));
    }
    lemma_none_marked(s, marks);
    lemma_none_in_scope(w.entries, scope);
    let list = order::ordered(s, services::entry_order());
    assert forall|i: int| 0 <= i < list.len() implies (#[trigger] list[i]).key.scope != scope by {
        order::lemma_ordered_contains(s, services::entry_order(), list[i]);
        assert(list.contains(list[i]));
    }
    lemma_none_stranded(s, list, scope);
    assert(registry::fallen(w, scope) =~= Seq::empty());
    assert(registry::other_scopes(registry::fallen(w, scope), scope) =~= Seq::empty());
    order::lemma_ordered(Seq::<Seq<Seq<char>>>::empty(), registry::scope_order());
    assert(registry::as_contributions(registry::fallen(w, scope)) =~= Seq::empty());
}

proof fn lemma_none_marked(s: Seq<EntryView>, marks: Seq<bool>)
    requires
        s.len() <= marks.len(),
        forall|i: int| 0 <= i < marks.len() ==> !(#[trigger] marks[i]),
    ensures
        services::pick(s, marks, true) == Seq::<EntryView>::empty(),
        services::pick(s, marks, false) == s,
    decreases s.len(),
{
    if s.len() > 0 {
        lemma_none_marked(s.drop_last(), marks);
        assert(!marks[s.len() - 1]);
        assert(s.drop_last().push(s.last()) =~= s);
    }
}

proof fn lemma_none_in_scope(s: Seq<ContributionView>, scope: Seq<Seq<char>>)
    requires
        forall|i: int| 0 <= i < s.len() ==> (#[trigger] s[i]).scope != scope,
    ensures
        registry::entries_in(s, scope, true) == Seq::<ContributionView>::empty(),
        registry::entries_in(s, scope, false) == s,
    decreases s.len(),
{
    if s.len() > 0 {
        assert forall|i: int| 0 <= i < s.drop_last().len() implies (
        #[trigger] s.drop_last()[i]).scope != scope by {
            assert(s.drop_last()[i] == s[i]);
        }
        lemma_none_in_scope(s.drop_last(), scope);
        assert(s[s.len() - 1] == s.last());
        assert(s.drop_last().push(s.last()) =~= s);
    }
}

proof fn lemma_none_stranded(s: Seq<EntryView>, list: Seq<EntryView>, scope: Seq<Seq<char>>)
    requires
        forall|i: int| 0 <= i < list.len() ==> (#[trigger] list[i]).key.scope != scope,
    ensures
        registry::outside_dependents(s, list, scope).len() == 0,
    decreases list.len(),
{
    if list.len() > 0 {
        assert forall|i: int| 0 <= i < list.drop_last().len() implies (
        #[trigger] list.drop_last()[i]).key.scope != scope by {
            assert(list.drop_last()[i] == list[i]);
        }
        lemma_none_stranded(s, list.drop_last(), scope);
        assert(list[list.len() - 1] == list.last());
    }
}

// ---------- the scopes that a removal cascades to ----------

/// Different scopes among these are displayed differently.
pub open spec fn displayed_apart(s: Seq<Seq<Seq<char>>>) -> bool {
    forall|p: Seq<Seq<char>>, q: Seq<Seq<char>>|
        s.contains(p) && s.contains(q) && #[trigger] services::scope_text(p)
            == #[trigger] services::scope_text(q) ==> p == q
}

proof fn lemma_deduped(s: Seq<Seq<Seq<char>>>)
    requires
        order::is_ordered(s, registry::scope_order()),
        displayed_apart(s),
    ensures
        s.len() > 0 ==> registry::deduped(s).len() > 0 && registry::deduped(s).last() == s.last(),
        order::is_ordered(registry::deduped(s), registry::scope_order()),
        registry::deduped(s).no_duplicates(),
        forall|p: Seq<Seq<char>>| #[trigger] registry::deduped(s).contains(p) <==> s.contains(p),
    decreases s.len(),
{
    let key = registry::scope_order();
    let d = registry::deduped(s);
    if s.len() > 1 {
        let t = s.drop_last();
        let e = registry::deduped(t);
        let x = s.last();
        assert forall|i: int, j: int| 0 <= i <= j < t.len() implies order::key_le(
            key(#[trigger] t[i]),
            key(#[trigger] t[j]),
        ) by {
            assert(t[i] == s[i] && t[j] == s[j]);
        }
        assert forall|p: Seq<Seq<char>>| t.contains(p) implies #[trigger] s.contains(p) by {
            let k = choose|k: int| 0 <= k < t.len() && t[k] == p;
            assert(s[k] == p);
        }
        lemma_deduped(t);
        assert(t.last() == s[s.len() - 2]);
        assert(s[s.len() - 1] == x);
        assert forall|p: Seq<Seq<char>>| #[trigger] s.contains(p) implies t.contains(p) || p
            == x by {
            let k = choose|k: int| 0 <= k < s.len() && s[k] == p;
            if k < t.len() {
                assert(t[k] == p);
            }
        }
        assert(t.contains(t[t.len() - 1]));
        if s[s.len() - 2] == x {
            assert(d == e);
        } else {
            assert(d == e.push(x));
            assert forall|i: int| 0 <= i < e.len() implies order::key_le(
                key(#[trigger] e[i]),
                key(x),
            ) && e[i] != x by {
                assert(e.contains(e[i]));
                assert(t.contains(e[i]));
                let k = choose|k: int| 0 <= k < t.len() && t[k] == e[i];
                assert(order::key_le(key(s[k]), key(s[s.len() - 1])));
                if e[i] == x {
                    assert(order::key_le(key(s[k]), key(s[s.len() - 2])));
                    assert(order::key_le(key(s[s.len() - 2]), key(s[s.len() - 1])));
                    order::lemma_key_le_antisymmetric(key(x), key(t.last()));
                    assert(key(x)[0] == key(t.last())[0]);
                    assert(services::scope_text(x) == services::scope_text(t.last()));
                    assert(s.contains(x) && s.contains(t.last()));
                }
            }
            order::lemma_key_le_total(key(x), key(x));
            assert forall|i: int, j: int| 0 <= i <= j < d.len() implies order::key_le(
                key(#[trigger] d[i]),
                key(#[trigger] d[j]),
            ) by {
                if j < e.len() {
                    assert(d[i] == e[i] && d[j] == e[j]);
                } else if i < e.len() {
                    assert(d[i] == e[i]);
                }
            }
            assert forall|p: Seq<Seq<char>>| #[trigger] d.contains(p) <==> s.contains(p) by {
                if d.contains(p) {
                    let k = choose|k: int| 0 <= k < d.len() && d[k] == p;
                    if k < e.len() {
                        assert(e[k] == p);
                        assert(e.contains(p));
                    }
                }
                if s.contains(p) {
                    if t.contains(p) {
                        assert(e.contains(p));
                        let k = choose|k: int| 0 <= k < e.len() && e[k] == p;
                        assert(d[k] == p);
                    } else {
                        assert(d[d.len() - 1] == p);
                    }
                }
            }
        }
    }
}

proof fn lemma_other_scopes(list: Seq<EntryView>, scope: Seq<Seq<char>>, p: Seq<Seq<char>>)
    ensures
        registry::other_scopes(list, scope).contains(p) <==> p != scope && exists|i: int|
            0 <= i < list.len() && (#[trigger] list[i]).key.scope == p,
    decreases list.len(),
{
    let all = registry::other_scopes(list, scope);
    if list.len() > 0 {
        let t = list.drop_last();
        let rest = registry::other_scopes(t, scope);
        lemma_other_scopes(t, scope, p);
        if all.contains(p) {
            let k = choose|k: int| 0 <= k < all.len() && all[k] == p;
            if k < rest.len() {
                assert(rest[k] == p);
                assert(rest.contains(p));
                let i = choose|i: int| 0 <= i < t.len() && (#[trigger] t[i]).key.scope == p;
                assert(list[i].key.scope == p);
            } else {
                assert(list[list.len() - 1].key.scope == p);
            }
        }
        if p != scope && exists|i: int| 0 <= i < list.len() && (#[trigger] list[i]).key.scope
            == p {
            let i = choose|i: int| 0 <= i < list.len() && (#[trigger] list[i]).key.scope == p;
            if i < t.len() {
                assert(t[i].key.scope == p);
                assert(rest.contains(p));
                let k = choose|k: int| 0 <= k < rest.len() && rest[k] == p;
                assert(all[k] == p);
            } else {
                assert(all[all.len() - 1] == p);
            }
        }
    }
}

/// The scopes that a removal cascades to are those that lose a service with
/// it, each named once and in display order, provided that no two of them are
/// displayed alike.
pub proof fn law_cascaded_scopes_are_named_once(v: RegistryView, scope: Seq<Seq<char>>)
    requires
        displayed_apart(registry::other_scopes(registry::fallen(v, scope), scope)),
    ensures
        ({
            let named = registry::cascade(v, scope);
            &&& named.no_duplicates()
            &&& order::is_ordered(named, registry::scope_order())
            &&& forall|p: Seq<Seq<char>>| #[trigger]
                named.contains(p) <==> p != scope && exists|i: int|
                    0 <= i < registry::fallen(v, scope).len() && (#[trigger] registry::fallen(
                        v,
                        scope,
                    )[i]).key.scope == p
        }),
{
    let lost = registry::other_scopes(registry::fallen(v, scope), scope);
    let s = order::ordered(lost, registry::scope_order());
    order::lemma_ordered(lost, registry::scope_order());
    assert forall|p: Seq<Seq<char>>| #[trigger] s.contains(p) == lost.contains(p) by {
        order::lemma_ordered_contains(lost, registry::scope_order(), p);
    }
    lemma_deduped(s);
    assert forall|p: Seq<Seq<char>>| #[trigger]
        registry::cascade(v, scope).contains(p) <==> p != scope && exists|i: int|
            0 <= i < registry::fallen(v, scope).len() && (#[trigger] registry::fallen(
                v,
                scope,
            )[i]).key.scope == p by {
        lemma_other_scopes(registry::fallen(v, scope), scope, p);
    }
}

/// The parts of a path are named, and without a slash.
pub open spec fn is_plain(path: Seq<Seq<char>>) -> bool {
    forall|i: int|
        0 <= i < path.len() ==> (#[trigger] path[i]).len() > 0 && !path[i].contains('/')
}

/// Plain paths are displayed apart.
pub proof fn law_plain_paths_are_displayed_apart(p: Seq<Seq<char>>, q: Seq<Seq<char>>)
    requires
        is_plain(p),
        is_plain(q),
        services::scope_text(p) == services::scope_text(q),
    ensures
        p == q,
{
    let a = text::join_text(p, "/"@);
    let b = text::join_text(q, "/"@);
    assert(("/"@ + a).skip("/"@.len() as int) =~= a);
    assert(("/"@ + b).skip("/"@.len() as int) =~= b);
    lemma_joined(p, q);
}

proof fn lemma_joined(p: Seq<Seq<char>>, q: Seq<Seq<char>>)
    requires
        is_plain(p),
        is_plain(q),
        text::join_text(p, "/"@) == text::join_text(q, "/"@),
    ensures
        p == q,
    decreases p.len(),
{
    reveal_strlit("/");
    assert("/"@ =~= seq!['/']);
    let a = text::join_text(p, "/"@);
    let b = text::join_text(q, "/"@);
    if p.len() > 0 {
        lemma_joined_last(p);
        assert(p[p.len() - 1] == p.last());
    }
    if q.len() > 0 {
        lemma_joined_last(q);
        assert(q[q.len() - 1] == q.last());
    }
    if p.len() == 0 || q.len() == 0 {
        assert(p =~= q);
    } else {
        let x = p.last();
        let y = q.last();
        // The last part ends the text, and what precedes it is a slash or
        // nothing.
        lemma_slash_inside(a, p, x, y);
        lemma_slash_inside(b, q, y, x);
        assert(x =~= y) by {
            assert forall|i: int| 0 <= i < x.len() implies x[i] == y[i] by {
                assert(a[a.len() - x.len() + i] == x[i]);
                assert(b[b.len() - y.len() + i] == y[i]);
            }
        }
        let s = p.drop_last();
        let t = q.drop_last();
        if p.len() == 1 && q.len() == 1 {
            assert(p =~= q);
        } else if p.len() == 1 {
            assert(b.len() > y.len());
        } else if q.len() == 1 {
            assert(a.len() > x.len());
        } else {
            let m = text::join_text(s, "/"@);
            let n = text::join_text(t, "/"@);
            assert(a == m + "/"@ + x);
            assert(b == n + "/"@ + y);
            assert(m =~= a.take(a.len() - x.len() - 1));
            assert(n =~= b.take(b.len() - y.len() - 1));
            assert forall|i: int| 0 <= i < s.len() implies (#[trigger] s[i]).len() > 0
                && !s[i].contains('/') by {
                assert(s[i] == p[i]);
            }
            assert forall|i: int| 0 <= i < t.len() implies (#[trigger] t[i]).len() > 0
                && !t[i].contains('/') by {
                assert(t[i] == q[i]);
            }
            lemma_joined(s, t);
            assert(p =~= s.push(x));
            assert(q =~= t.push(y));
        }
    }
}

proof fn lemma_joined_last(p: Seq<Seq<char>>)
    requires
        p.len() > 0,
        is_plain(p),
    ensures
        ({
            let a = text::join_text(p, "/"@);
            let x = p.last();
            &&& a.len() >= x.len() > 0
            &&& a.skip(a.len() - x.len()) == x
            &&& p.len() == 1 ==> a == x
            &&& p.len() > 1 ==> a.len() > x.len() && a[a.len() - x.len() - 1] == '/'
        }),
{
    reveal_strlit("/");
    assert("/"@ =~= seq!['/']);
    let a = text::join_text(p, "/"@);
    let x = p.last();
    assert(p[p.len() - 1] == x);
    assert(a.skip(a.len() - x.len()) =~= x);
}

/// A part that ends the same text without a slash is no longer.
proof fn lemma_slash_inside(a: Seq<char>, p: Seq<Seq<char>>, x: Seq<char>, y: Seq<char>)
    requires
        p.len() > 0,
        is_plain(p),
        a == text::join_text(p, "/"@),
        x == p.last(),
        !y.contains('/'),
        a.len() >= y.len(),
        a.skip(a.len() - y.len()) == y,
    ensures
        y.len() <= x.len(),
{
    lemma_joined_last(p);
    if x.len() < y.len() {
        let k = y.len() - x.len() - 1;
        assert(a.skip(a.len() - y.len())[k] == a[a.len() - y.len() + k]);
        assert(y[k] == '/');
    }
}

// ---------- the order of registration ----------

/// A registry with nothing in it.
pub open spec fn fresh() -> RegistryView {
    RegistryView { entries: Seq::empty(), services: Seq::empty() }
}

/// A contribution as the registry stores it.
pub open spec fn stored(c: ContributionView) -> ContributionView {
    match c.kind {
        KindView::UiMount { .. } => registry::slotted(c),
        _ => c,
    }
}

pub open spec fn all_stored(s: Seq<ContributionView>) -> Seq<ContributionView> {
    s.map_values(|c: ContributionView| stored(c))
}

/// No two themes, guards or settings share an identity.
pub open spec fn merges_nothing(s: Seq<ContributionView>) -> bool {
    forall|i: int, j: int|
        0 <= i < s.len() && 0 <= j < s.len() && i != j && rules::slot_of(#[trigger] s[i])
            == rules::slot_of(#[trigger] s[j]) ==> !(s[i].kind is Theme || s[i].kind is Guard
            || s[i].kind is Settings)
}

/// One entry in each slot, layers apart.
spec fn one_per_slot(s: Seq<ContributionView>) -> bool {
    forall|i: int, j: int|
        0 <= i < s.len() && 0 <= j < s.len() && rules::slot_of(#[trigger] s[i]) == rules::slot_of(
            #[trigger] s[j],
        ) && !registry::layers(s[i].kind) ==> i == j
}

/// Services stand in their own scope.
spec fn at_home(s: Seq<ContributionView>) -> bool {
    forall|i: int|
        0 <= i < s.len() ==> ((#[trigger] s[i]).kind matches KindView::Service { key, .. }
            ==> key.scope == s[i].scope)
}

proof fn lemma_validated(s: Seq<ContributionView>)
    requires
        rules::set_violation(Seq::empty(), Seq::empty(), s) is None,
        merges_nothing(s),
    ensures
        one_per_slot(s),
        at_home(s),
    decreases s.len(),
{
    if s.len() > 0 {
        let t = s.drop_last();
        let c = s.last();
        assert forall|i: int, j: int|
            0 <= i < t.len() && 0 <= j < t.len() && i != j && rules::slot_of(#[trigger] t[i])
                == rules::slot_of(#[trigger] t[j]) implies !(t[i].kind is Theme
            || t[i].kind is Guard || t[i].kind is Settings) by {
            assert(t[i] == s[i] && t[j] == s[j]);
        }
        lemma_validated(t);
        rules::lemma_last_place(t, rules::slot_of(c));
        assert(s[s.len() - 1] == c);
        assert forall|i: int| 0 <= i < t.len() && rules::slot_of(#[trigger] t[i])
            == rules::slot_of(c) implies registry::layers(c.kind) && registry::layers(
            t[i].kind,
        ) by {
            assert(t[i] == s[i]);
            assert(rules::slot_of(s[i]) == rules::slot_of(s[s.len() - 1]));
            assert(rules::latest(t, rules::slot_of(c)) is Some);
        }
        assert forall|i: int, j: int|
            0 <= i < s.len() && 0 <= j < s.len() && rules::slot_of(#[trigger] s[i])
                == rules::slot_of(#[trigger] s[j]) && !registry::layers(
                s[i].kind,
            ) implies i == j by {
            if i < t.len() {
                assert(t[i] == s[i]);
            }
            if j < t.len() {
                assert(t[j] == s[j]);
            }
        }
        assert forall|i: int| 0 <= i < s.len() implies ((
        #[trigger] s[i]).kind matches KindView::Service { key, .. } ==> key.scope
            == s[i].scope) by {
            if i < t.len() {
                assert(t[i] == s[i]);
            }
        }
    }
}

/// Twice in the one, twice in the other.
proof fn lemma_twice<A>(s: Seq<A>, x: A)
    ensures
        s.to_multiset().count(x) >= 2 ==> exists|i: int, j: int|
            0 <= i < j < s.len() && #[trigger] s[i] == x && #[trigger] s[j] == x,
        (exists|i: int, j: int|
            0 <= i < j < s.len() && #[trigger] s[i] == x && #[trigger] s[j] == x)
            ==> s.to_multiset().count(x) >= 2,
    decreases s.len(),
{
    broadcast use vstd::seq_lib::group_to_multiset_ensures;

    if s.len() > 0 {
        let t = s.drop_last();
        lemma_twice(t, x);
        assert(s =~= t.push(s.last()));
        if s.to_multiset().count(x) >= 2 {
            if t.to_multiset().count(x) >= 2 {
                let (i, j) = choose|i: int, j: int|
                    0 <= i < j < t.len() && #[trigger] t[i] == x && #[trigger] t[j] == x;
                assert(s[i] == x && s[j] == x);
            } else {
                assert(s.last() == x);
                assert(t.to_multiset().count(x) > 0);
                assert(t.contains(x));
                let i = choose|i: int| 0 <= i < t.len() && t[i] == x;
                assert(s[i] == x && s[s.len() - 1] == x);
            }
        }
        if exists|i: int, j: int|
            0 <= i < j < s.len() && #[trigger] s[i] == x && #[trigger] s[j] == x {
            let (i, j) = choose|i: int, j: int|
                0 <= i < j < s.len() && #[trigger] s[i] == x && #[trigger] s[j] == x;
            assert(t[i] == x);
            if j < t.len() {
                assert(t[j] == x);
            } else {
                assert(t.contains(x));
                assert(t.to_multiset().count(x) > 0);
            }
        }
    }
}

proof fn lemma_permuted(s: Seq<ContributionView>, t: Seq<ContributionView>)
    requires
        s.to_multiset() == t.to_multiset(),
        one_per_slot(s),
        at_home(s),
    ensures
        one_per_slot(t),
        at_home(t),
        all_stored(s).to_multiset() == all_stored(t).to_multiset(),
{
    broadcast use vstd::seq_lib::group_to_multiset_ensures;

    assert forall|i: int| 0 <= i < t.len() implies s.contains(#[trigger] t[i]) by {
        assert(t.contains(t[i]));
        assert(t.to_multiset().count(t[i]) > 0);
    }
    assert forall|i: int| 0 <= i < t.len() implies ((#[trigger] t[i]).kind matches KindView::Service {
        key,
        ..
    } ==> key.scope == t[i].scope) by {
        assert(s.contains(t[i]));
        let k = choose|k: int| 0 <= k < s.len() && s[k] == t[i];
    }
    assert forall|i: int, j: int|
        0 <= i < t.len() && 0 <= j < t.len() && rules::slot_of(#[trigger] t[i]) == rules::slot_of(
            #[trigger] t[j],
        ) && !registry::layers(t[i].kind) implies i == j by {
        assert(s.contains(t[i]) && s.contains(t[j]));
        let k = choose|k: int| 0 <= k < s.len() && s[k] == t[i];
        let l = choose|l: int| 0 <= l < s.len() && s[l] == t[j];
        assert(k == l);
        if i != j {
            let x = t[i];
            lemma_twice(t, x);
            lemma_twice(s, x);
            let (lo, hi) = if i < j {
                (i, j)
            } else {
                (j, i)
            };
            assert(t[lo] == x && t[hi] == x);
            let (a, b) = choose|a: int, b: int|
                0 <= a < b < s.len() && #[trigger] s[a] == x && #[trigger] s[b] == x;
        }
    }
    lemma_mapped(s, t);
}

/// A map keeps which elements there are, and how often.
proof fn lemma_mapped(s: Seq<ContributionView>, t: Seq<ContributionView>)
    requires
        s.to_multiset() == t.to_multiset(),
    ensures
        all_stored(s).to_multiset() == all_stored(t).to_multiset(),
    decreases s.len(),
{
    broadcast use vstd::seq_lib::group_to_multiset_ensures;

    assert(s.len() == s.to_multiset().len());
    assert(t.len() == t.to_multiset().len());
    if s.len() == 0 {
        assert(all_stored(s) =~= all_stored(t));
    } else {
        let x = s.last();
        assert(s.contains(x)) by {
            assert(s[s.len() - 1] == x);
        }
        assert(t.to_multiset().count(x) > 0);
        assert(t.contains(x));
        let k = choose|k: int| 0 <= k < t.len() && t[k] == x;
        let r = t.remove(k);
        let head = t.take(k);
        let tail = t.skip(k + 1);
        assert(t =~= (head + seq![x]) + tail);
        assert(r =~= head + tail);
        lemma_added(head + seq![x], tail);
        lemma_added(head, seq![x]);
        lemma_added(head, tail);
        let one = seq![x];
        assert(one =~= Seq::empty().push(x));
        assert(t.to_multiset() =~= r.to_multiset().insert(x));
        assert(s =~= s.drop_last().push(x));
        assert(s.drop_last().to_multiset() =~= s.to_multiset().remove(x));
        assert(r.to_multiset() =~= t.to_multiset().remove(x));
        lemma_mapped(s.drop_last(), r);
        let y = stored(x);
        assert(all_stored(s) =~= all_stored(s.drop_last()).push(y));
        assert(all_stored(t) =~= (all_stored(head) + seq![y]) + all_stored(tail));
        assert(all_stored(r) =~= all_stored(head) + all_stored(tail));
        lemma_added(all_stored(head) + seq![y], all_stored(tail));
        lemma_added(all_stored(head), seq![y]);
        lemma_added(all_stored(head), all_stored(tail));
        assert(seq![y] =~= Seq::empty().push(y));
        assert(all_stored(t).to_multiset() =~= all_stored(r).to_multiset().insert(y));
        assert(all_stored(s).to_multiset() =~= all_stored(t).to_multiset());
    }
}

/// A fresh registry holds what was applied to it.
proof fn lemma_applied(s: Seq<ContributionView>, w: RegistryView)
    requires
        one_per_slot(s),
        at_home(s),
        registry::steps(fresh(), Seq::empty(), s) == Some(w),
    ensures
        w.entries.to_multiset().add(registry::as_contributions(w.services).to_multiset())
            == all_stored(s).to_multiset(),
        forall|i: int|
            0 <= i < w.entries.len() ==> exists|k: int|
                0 <= k < s.len() && rules::slot_of(#[trigger] s[k]) == rules::slot_of(
                    #[trigger] w.entries[i],
                ),
    decreases s.len(),
{
    broadcast use vstd::seq_lib::group_to_multiset_ensures;

    if s.len() == 0 {
        assert(all_stored(s) =~= Seq::empty());
        assert(registry::as_contributions(w.services) =~= Seq::empty());
        assert(w.entries.to_multiset().add(
            registry::as_contributions(w.services).to_multiset(),
        ) =~= all_stored(s).to_multiset());
    } else {
        let t = s.drop_last();
        let c = s.last();
        let u = registry::steps(fresh(), Seq::empty(), t)->0;
        assert(s[s.len() - 1] == c);
        assert forall|i: int, j: int|
            0 <= i < t.len() && 0 <= j < t.len() && rules::slot_of(#[trigger] t[i])
                == rules::slot_of(#[trigger] t[j]) && !registry::layers(
                t[i].kind,
            ) implies i == j by {
            assert(t[i] == s[i] && t[j] == s[j]);
        }
        assert forall|i: int| 0 <= i < t.len() implies ((
        #[trigger] t[i]).kind matches KindView::Service { key, .. } ==> key.scope
            == t[i].scope) by {
            assert(t[i] == s[i]);
        }
        lemma_applied(t, u);
        let y = stored(c);
        assert(all_stored(s) =~= all_stored(t).push(y));
        match c.kind {
            KindView::Service { key, provider, deps } => {
                let e = EntryView { key, provider, deps };
                assert(!registry::plan_names(Seq::empty(), key));
                assert(w.services == u.services.push(e));
                assert(registry::as_contribution(e) == c);
                assert(registry::as_contributions(w.services) =~= registry::as_contributions(
                    u.services,
                ).push(c));
            },
            _ => {
                rules::lemma_last_place(u.entries, rules::slot_of(c));
                if !registry::layers(c.kind) {
                    let p = rules::last_place(u.entries, rules::slot_of(c));
                    if p >= 0 {
                        let k = choose|k: int|
                            0 <= k < t.len() && rules::slot_of(#[trigger] t[k]) == rules::slot_of(
                                u.entries[p],
                            );
                        assert(t[k] == s[k]);
                        assert(rules::slot_of(s[s.len() - 1]) == rules::slot_of(s[k]));
                    }
                    assert(rules::last_place(u.entries, rules::slot_of(c)) == -1);
                }
                assert(rules::slot_of(y) == rules::slot_of(c));
                if let KindView::Settings(x) = c.kind {
                    registry_laws::law_empty_settings_are_neutral(x);
                }
                assert(w.entries =~= u.entries.push(y));
            },
        }
        assert(w.entries.to_multiset().add(
            registry::as_contributions(w.services).to_multiset(),
        ) =~= all_stored(s).to_multiset());
        assert forall|i: int| 0 <= i < w.entries.len() implies exists|k: int|
            0 <= k < s.len() && rules::slot_of(#[trigger] s[k]) == rules::slot_of(
                #[trigger] w.entries[i],
            ) by {
            if i < u.entries.len() {
                assert(w.entries[i] == u.entries[i]);
                let k = choose|k: int|
                    0 <= k < t.len() && rules::slot_of(#[trigger] t[k]) == rules::slot_of(
                        u.entries[i],
                    );
                assert(s[k] == t[k]);
            } else {
                assert(rules::slot_of(s[s.len() - 1]) == rules::slot_of(w.entries[i]));
            }
        }
    }
}

/// The numbers in the contributions are written as numbers are.
pub open spec fn numbers_are_valid(s: Seq<ContributionView>) -> bool {
    forall|i: int|
        0 <= i < s.len() ==> json_laws::is_valid(
            contribution::kind_json(stored(#[trigger] s[i]).kind),
        )
}

/// The order of a set does not show: fresh registries that a validated set of
/// one scope was applied to, in whatever order, have one snapshot. It holds
/// the contributions of the set as they are stored, in snapshot order.
pub proof fn law_permuted_sets_give_one_snapshot(
    scope: Seq<Seq<char>>,
    set: Seq<ContributionView>,
    permuted: Seq<ContributionView>,
    v: RegistryView,
    w: RegistryView,
)
    requires
        rules::set_violation(Seq::empty(), Seq::empty(), set) is None,
        merges_nothing(set),
        numbers_are_valid(set),
        forall|i: int| 0 <= i < set.len() ==> (#[trigger] set[i]).scope == scope,
        set.to_multiset() == permuted.to_multiset(),
        registry::steps(fresh(), Seq::empty(), set) == Some(v),
        registry::steps(fresh(), Seq::empty(), permuted) == Some(w),
    ensures
        registry::snapshot_of(v) == registry::snapshot_of(w),
        registry::snapshot_of(v).to_multiset() == all_stored(set).to_multiset(),
        order::is_ordered(registry::snapshot_of(v), registry::snapshot_order()),
{
    broadcast use vstd::seq_lib::group_to_multiset_ensures;

    lemma_validated(set);
    lemma_permuted(set, permuted);
    lemma_applied(set, v);
    lemma_applied(permuted, w);
    lemma_everything(v);
    lemma_everything(w);
    order::lemma_ordered(registry::everything(v), registry::snapshot_order());
    let all = registry::everything(v);
    let key = registry::snapshot_order();
    let kept = all_stored(set);
    assert forall|a: ContributionView, b: ContributionView|
        all.contains(a) && all.contains(b) && #[trigger] key(a) == #[trigger] key(
            b,
        ) implies a == b by {
        assert(all.to_multiset().count(a) > 0 && all.to_multiset().count(b) > 0);
        assert(kept.contains(a) && kept.contains(b));
        let i = choose|i: int| 0 <= i < kept.len() && kept[i] == a;
        let j = choose|j: int| 0 <= j < kept.len() && kept[j] == b;
        assert(stored(set[i]) == a && stored(set[j]) == b);
        let x = crate::json::json_text(contribution::kind_json(a.kind));
        let y = crate::json::json_text(contribution::kind_json(b.kind));
        assert(key(a)[4] == x && key(b)[4] == y);
        json_laws::law_texts_tell_values_apart(
            contribution::kind_json(a.kind),
            contribution::kind_json(b.kind),
        );
        contribution::lemma_kind(a.kind, b.kind);
    }
    registry_laws::law_snapshot_is_order_free(v, w);
}

// ---------- the order of stages ----------

spec fn tens(width: nat) -> nat
    decreases width,
{
    if width == 0 {
        1
    } else {
        10 * tens((width - 1) as nat)
    }
}

proof fn lemma_bytes_le_push(a: Seq<u8>, b: Seq<u8>, x: u8, y: u8)
    requires
        a.len() == b.len(),
    ensures
        text::bytes_le(a.push(x), b.push(y)) == if a == b {
            x <= y
        } else {
            text::bytes_le(a, b)
        },
    decreases a.len(),
{
    if a.len() == 0 {
        assert(a =~= b);
        assert(a.push(x).drop_first() =~= Seq::empty());
        assert(b.push(y).drop_first() =~= Seq::empty());
        assert(a.push(x)[0] == x && b.push(y)[0] == y);
        assert(text::bytes_le(a.push(x).drop_first(), b.push(y).drop_first()));
    } else {
        let c = a.drop_first();
        let d = b.drop_first();
        assert(a.push(x)[0] == a[0] && b.push(y)[0] == b[0]);
        assert(a.push(x).drop_first() =~= c.push(x));
        assert(b.push(y).drop_first() =~= d.push(y));
        lemma_bytes_le_push(c, d, x, y);
        assert(a =~= seq![a[0]] + c);
        assert(b =~= seq![b[0]] + d);
        if a[0] == b[0] && c == d {
            assert(a == b);
        }
    }
}

proof fn lemma_digit_byte(d: nat)
    requires
        d < 10,
    ensures
        encode_utf8(seq![text::digit(d)]) == seq![(48 + d) as u8],
{
    let t = seq![text::digit(d)];
    assert(is_ascii_chars(t));
    is_ascii_chars_encode_utf8(t);
    assert(encode_utf8(t)[0] == t[0] as u8);
    assert(encode_utf8(t) =~= seq![(48 + d) as u8]);
}

proof fn lemma_fixed_digits(m: nat, n: nat, width: nat)
    requires
        m < tens(width),
        n < tens(width),
    ensures
        encode_utf8(registry::fixed_digits(m, width)).len() == width,
        encode_utf8(registry::fixed_digits(n, width)).len() == width,
        text::text_le(registry::fixed_digits(m, width), registry::fixed_digits(n, width)) <==> m
            <= n,
        encode_utf8(registry::fixed_digits(m, width)) == encode_utf8(
            registry::fixed_digits(n, width),
        ) <==> m == n,
    decreases width,
{
    if width > 0 {
        let w = (width - 1) as nat;
        let a = registry::fixed_digits(m / 10, w);
        let b = registry::fixed_digits(n / 10, w);
        let x = text::digit(m % 10);
        let y = text::digit(n % 10);
        lemma_fixed_digits(m / 10, n / 10, w);
        text::lemma_encode_add(a, seq![x]);
        text::lemma_encode_add(b, seq![y]);
        lemma_digit_byte(m % 10);
        lemma_digit_byte(n % 10);
        let p = (48 + m % 10) as u8;
        let q = (48 + n % 10) as u8;
        assert(a.push(x) =~= a + seq![x]);
        assert(b.push(y) =~= b + seq![y]);
        assert(encode_utf8(a.push(x)) =~= encode_utf8(a).push(p));
        assert(encode_utf8(b.push(y)) =~= encode_utf8(b).push(q));
        lemma_bytes_le_push(encode_utf8(a), encode_utf8(b), p, q);
        if encode_utf8(a).push(p) == encode_utf8(b).push(q) {
            assert(encode_utf8(a).push(p).drop_last() =~= encode_utf8(a));
            assert(encode_utf8(b).push(q).drop_last() =~= encode_utf8(b));
            assert(encode_utf8(a).push(p).last() == encode_utf8(b).push(q).last());
        }
    }
}

/// Stages of a slot stand in a snapshot in the order of their numbers: what
/// they sort by compares as the numbers do.
pub proof fn law_stages_sort_by_number(m: u32, n: u32)
    ensures
        text::text_le(
            registry::fixed_digits(m as nat, 10),
            registry::fixed_digits(n as nat, 10),
        ) <==> m <= n,
{
    reveal_with_fuel(tens, 11);
    assert(tens(10) == 10_000_000_000);
    lemma_fixed_digits(m as nat, n as nat, 10);
}

} // verus!
