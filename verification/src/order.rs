//! Stable ordering by keys made of texts.
use vstd::prelude::*;
use crate::text;
use crate::value;
use crate::value::Value;

verus! {

/// Lexicographic order of keys, each a sequence of texts.
pub open spec fn key_le(a: Seq<Seq<char>>, b: Seq<Seq<char>>) -> bool
    decreases a.len(),
{
    if a.len() == 0 {
        true
    } else if b.len() == 0 {
        false
    } else if a[0] != b[0] {
        text::text_le(a[0], b[0])
    } else {
        key_le(a.drop_first(), b.drop_first())
    }
}

pub proof fn lemma_key_le_total(a: Seq<Seq<char>>, b: Seq<Seq<char>>)
    ensures
        key_le(a, b) || key_le(b, a),
    decreases a.len(),
{
    if a.len() > 0 && b.len() > 0 {
        text::lemma_text_le_total(a[0], b[0]);
        lemma_key_le_total(a.drop_first(), b.drop_first());
    }
}

pub proof fn lemma_key_le_transitive(
    a: Seq<Seq<char>>,
    b: Seq<Seq<char>>,
    c: Seq<Seq<char>>,
)
    requires
        key_le(a, b),
        key_le(b, c),
    ensures
        key_le(a, c),
    decreases a.len(),
{
    if a.len() > 0 && b.len() > 0 && c.len() > 0 {
        if a[0] == b[0] && b[0] == c[0] {
            lemma_key_le_transitive(a.drop_first(), b.drop_first(), c.drop_first());
        } else if a[0] != b[0] && b[0] != c[0] {
            text::lemma_text_le_transitive(a[0], b[0], c[0]);
            if a[0] == c[0] {
                text::lemma_text_le_antisymmetric(a[0], b[0]);
            }
        }
    }
}

fn key_at_or_before(a: &Vec<String>, b: &Vec<String>) -> (r: bool)
    ensures
        r == key_le(value::views(a@), value::views(b@)),
{
    let mut i: usize = 0;
    let ghost x = value::views(a@);
    let ghost y = value::views(b@);
    assert(x.skip(0) =~= x);
    assert(y.skip(0) =~= y);
    while i < a.len() && i < b.len()
        invariant
            i <= a.len(),
            i <= b.len(),
            x == value::views(a@),
            y == value::views(b@),
            key_le(x, y) == key_le(x.skip(i as int), y.skip(i as int)),
        decreases a.len() - i,
    {
        proof {
            assert(x.skip(i as int).drop_first() =~= x.skip(i as int + 1));
            assert(y.skip(i as int).drop_first() =~= y.skip(i as int + 1));
            assert(x.skip(i as int)[0] == a@[i as int]@);
            assert(y.skip(i as int)[0] == b@[i as int]@);
        }
        if !a[i].same(&b[i]) {
            return text::at_or_before(a[i].as_str(), b[i].as_str());
        }
        i = i + 1;
    }
    i == a.len()
}

/// `x` placed into an ordered sequence, behind everything that does not sort
/// after it.
pub open spec fn placed<A>(s: Seq<A>, key: spec_fn(A) -> Seq<Seq<char>>, x: A) -> Seq<A>
    decreases s.len(),
{
    if s.len() == 0 || key_le(key(s.last()), key(x)) {
        s.push(x)
    } else {
        placed(s.drop_last(), key, x).push(s.last())
    }
}

/// The elements of `s` in the order of their keys; elements with equal keys
/// keep their relative order.
pub open spec fn ordered<A>(s: Seq<A>, key: spec_fn(A) -> Seq<Seq<char>>) -> Seq<A>
    decreases s.len(),
{
    if s.len() == 0 {
        s
    } else {
        placed(ordered(s.drop_last(), key), key, s.last())
    }
}

/// Every element sorts at or before all that follow it.
pub open spec fn is_ordered<A>(s: Seq<A>, key: spec_fn(A) -> Seq<Seq<char>>) -> bool {
    forall|i: int, j: int|
        0 <= i <= j < s.len() ==> key_le(key(#[trigger] s[i]), key(#[trigger] s[j]))
}

pub proof fn lemma_placed<A>(s: Seq<A>, key: spec_fn(A) -> Seq<Seq<char>>, x: A)
    requires
        is_ordered(s, key),
    ensures
        is_ordered(placed(s, key, x), key),
        placed(s, key, x).to_multiset() == s.to_multiset().insert(x),
        placed(s, key, x).len() == s.len() + 1,
    decreases s.len(),
{
    broadcast use vstd::seq_lib::group_to_multiset_ensures;

    lemma_key_le_total(key(x), key(x));
    if s.len() == 0 || key_le(key(s.last()), key(x)) {
        assert forall|i: int, j: int| 0 <= i <= j < s.push(x).len() implies key_le(
            key(#[trigger] s.push(x)[i]),
            key(#[trigger] s.push(x)[j]),
        ) by {
            if j == s.len() && i < j {
                lemma_key_le_transitive(key(s[i]), key(s.last()), key(x));
            }
        }
    } else {
        let t = s.drop_last();
        let p = placed(t, key, x);
        assert(is_ordered(t, key)) by {
            assert forall|i: int, j: int| 0 <= i <= j < t.len() implies key_le(
                key(#[trigger] t[i]),
                key(#[trigger] t[j]),
            ) by {
                assert(t[i] == s[i] && t[j] == s[j]);
            }
        }
        lemma_placed(t, key, x);
        lemma_key_le_total(key(s.last()), key(x));
        let q = p.push(s.last());
        assert forall|i: int, j: int| 0 <= i <= j < q.len() implies key_le(
            key(#[trigger] q[i]),
            key(#[trigger] q[j]),
        ) by {
            lemma_key_le_total(key(s.last()), key(s.last()));
            if j == p.len() && i < j {
                let y = p[i];
                assert(p.to_multiset().count(y) > 0) by {
                    assert(p.contains(y));
                }
                assert(t.to_multiset().insert(x).count(y) > 0);
                if y != x {
                    assert(t.contains(y));
                    let k = choose|k: int| 0 <= k < t.len() && t[k] == y;
                    assert(s[k] == y);
                    assert(key_le(key(s[k]), key(s[s.len() - 1])));
                }
            }
        }
        assert(s =~= t.push(s.last()));
        assert(q.to_multiset() =~= s.to_multiset().insert(x));
    }
}

/// Ordering keeps the elements, and orders them.
pub proof fn lemma_ordered<A>(s: Seq<A>, key: spec_fn(A) -> Seq<Seq<char>>)
    ensures
        is_ordered(ordered(s, key), key),
        ordered(s, key).to_multiset() == s.to_multiset(),
        ordered(s, key).len() == s.len(),
    decreases s.len(),
{
    broadcast use vstd::seq_lib::group_to_multiset_ensures;

    if s.len() > 0 {
        lemma_ordered(s.drop_last(), key);
        lemma_placed(ordered(s.drop_last(), key), key, s.last());
        assert(s =~= s.drop_last().push(s.last()));
    }
}

/// An element is in the ordered sequence exactly when it is in the given one.
pub proof fn lemma_ordered_contains<A>(s: Seq<A>, key: spec_fn(A) -> Seq<Seq<char>>, x: A)
    ensures
        ordered(s, key).contains(x) == s.contains(x),
{
    broadcast use vstd::seq_lib::group_to_multiset_ensures;

    lemma_ordered(s, key);
    assert(ordered(s, key).to_multiset().count(x) == s.to_multiset().count(x));
}

proof fn lemma_placed_map<A, B>(
    s: Seq<A>,
    key: spec_fn(A) -> Seq<Seq<char>>,
    x: A,
    f: spec_fn(A) -> B,
    key2: spec_fn(B) -> Seq<Seq<char>>,
)
    requires
        forall|i: int| 0 <= i < s.len() ==> key2(f(#[trigger] s[i])) == key(s[i]),
        key2(f(x)) == key(x),
    ensures
        placed(s, key, x).map_values(f) == placed(s.map_values(f), key2, f(x)),
    decreases s.len(),
{
    let m = s.map_values(f);
    if s.len() == 0 || key_le(key(s.last()), key(x)) {
        assert(s.push(x).map_values(f) =~= m.push(f(x)));
    } else {
        assert forall|i: int| 0 <= i < s.drop_last().len() implies key2(
            f(#[trigger] s.drop_last()[i]),
        ) == key(s.drop_last()[i]) by {
            assert(s.drop_last()[i] == s[i]);
        }
        lemma_placed_map(s.drop_last(), key, x, f, key2);
        assert(s.drop_last().map_values(f) =~= m.drop_last());
        assert(placed(s, key, x).map_values(f) =~= placed(m, key2, f(x)));
    }
}

/// Ordering commutes with a map that keeps the keys.
pub proof fn lemma_ordered_map<A, B>(
    s: Seq<A>,
    key: spec_fn(A) -> Seq<Seq<char>>,
    f: spec_fn(A) -> B,
    key2: spec_fn(B) -> Seq<Seq<char>>,
)
    requires
        forall|i: int| 0 <= i < s.len() ==> key2(f(#[trigger] s[i])) == key(s[i]),
    ensures
        ordered(s, key).map_values(f) == ordered(s.map_values(f), key2),
    decreases s.len(),
{
    if s.len() == 0 {
        assert(s.map_values(f) =~= Seq::<B>::empty());
        assert(ordered(s, key).map_values(f) =~= ordered(s.map_values(f), key2));
    } else {
        let t = s.drop_last();
        assert forall|i: int| 0 <= i < t.len() implies key2(f(#[trigger] t[i])) == key(t[i]) by {
            assert(t[i] == s[i]);
        }
        lemma_ordered_map(t, key, f, key2);
        assert(t.map_values(f) =~= s.map_values(f).drop_last());
        let o = ordered(t, key);
        assert forall|i: int| 0 <= i < o.len() implies key2(f(#[trigger] o[i])) == key(o[i]) by {
            lemma_ordered_contains(t, key, o[i]);
            assert(o.contains(o[i]));
            let k = choose|k: int| 0 <= k < t.len() && t[k] == o[i];
            assert(t[k] == s[k]);
        }
        lemma_placed_map(o, key, s.last(), f, key2);
    }
}

/// Ordering keeps a projection that tells all elements apart.
pub proof fn lemma_ordered_distinct<A, B>(
    s: Seq<A>,
    key: spec_fn(A) -> Seq<Seq<char>>,
    f: spec_fn(A) -> B,
)
    requires
        forall|i: int, j: int|
            0 <= i < s.len() && 0 <= j < s.len() && f(#[trigger] s[i]) == f(#[trigger] s[j])
                ==> i == j,
    ensures
        forall|i: int, j: int|
            0 <= i < s.len() && 0 <= j < s.len() && f(#[trigger] ordered(s, key)[i]) == f(
                #[trigger] ordered(s, key)[j],
            ) ==> i == j,
{
    let o = ordered(s, key);
    lemma_ordered(s, key);
    assert(s.no_duplicates());
    s.lemma_multiset_has_no_duplicates();
    assert forall|x: A| #[trigger] o.to_multiset().contains(x) implies o.to_multiset().count(x)
        == 1 by {
        assert(s.to_multiset().contains(x));
    }
    o.lemma_multiset_has_no_duplicates_conv();
    assert forall|i: int, j: int|
        0 <= i < s.len() && 0 <= j < s.len() && f(#[trigger] o[i]) == f(#[trigger] o[j]) implies i
        == j by {
        lemma_ordered_contains(s, key, o[i]);
        lemma_ordered_contains(s, key, o[j]);
        assert(o.contains(o[i]) && o.contains(o[j]));
        let a = choose|a: int| 0 <= a < s.len() && s[a] == o[i];
        let b = choose|b: int| 0 <= b < s.len() && s[b] == o[j];
        assert(f(s[a]) == f(s[b]));
    }
}

pub proof fn lemma_key_le_antisymmetric(a: Seq<Seq<char>>, b: Seq<Seq<char>>)
    requires
        key_le(a, b),
        key_le(b, a),
    ensures
        a == b,
    decreases a.len(),
{
    if a.len() > 0 && b.len() > 0 {
        if a[0] != b[0] {
            text::lemma_text_le_antisymmetric(a[0], b[0]);
        } else {
            lemma_key_le_antisymmetric(a.drop_first(), b.drop_first());
            assert(a =~= seq![a[0]] + a.drop_first());
            assert(b =~= seq![b[0]] + b.drop_first());
        }
    } else {
        assert(a =~= b);
    }
}

/// Two ordered sequences of the same elements are equal where different
/// elements have different keys.
proof fn lemma_same_elements<A>(s: Seq<A>, t: Seq<A>, key: spec_fn(A) -> Seq<Seq<char>>)
    requires
        is_ordered(s, key),
        is_ordered(t, key),
        s.to_multiset() == t.to_multiset(),
        forall|a: A, b: A|
            s.contains(a) && s.contains(b) && #[trigger] key(a) == #[trigger] key(b) ==> a == b,
    ensures
        s == t,
    decreases s.len(),
{
    broadcast use vstd::seq_lib::group_to_multiset_ensures;

    assert(s.len() == s.to_multiset().len());
    assert(t.len() == t.to_multiset().len());
    if s.len() == 0 {
        assert(s =~= t);
    } else {
        let x = s.last();
        let y = t.last();
        assert(s[s.len() - 1] == x && t[t.len() - 1] == y);
        assert(s.contains(x) && t.contains(y));
        assert(t.to_multiset().count(x) > 0 && s.to_multiset().count(y) > 0);
        assert(t.contains(x) && s.contains(y));
        let i = choose|i: int| 0 <= i < t.len() && t[i] == x;
        let j = choose|j: int| 0 <= j < s.len() && s[j] == y;
        assert(key_le(key(t[i]), key(t[t.len() - 1])));
        assert(key_le(key(s[j]), key(s[s.len() - 1])));
        lemma_key_le_antisymmetric(key(x), key(y));
        assert(x == y);
        let s1 = s.drop_last();
        let t1 = t.drop_last();
        assert(s =~= s1.push(x));
        assert(t =~= t1.push(y));
        assert(s1.to_multiset().insert(x) == t1.to_multiset().insert(x));
        assert(s1.to_multiset() =~= s1.to_multiset().insert(x).remove(x));
        assert(t1.to_multiset() =~= t1.to_multiset().insert(x).remove(x));
        assert forall|a: int, b: int| 0 <= a <= b < s1.len() implies key_le(
            key(#[trigger] s1[a]),
            key(#[trigger] s1[b]),
        ) by {
            assert(s1[a] == s[a] && s1[b] == s[b]);
        }
        assert forall|a: int, b: int| 0 <= a <= b < t1.len() implies key_le(
            key(#[trigger] t1[a]),
            key(#[trigger] t1[b]),
        ) by {
            assert(t1[a] == t[a] && t1[b] == t[b]);
        }
        assert forall|a: A, b: A|
            s1.contains(a) && s1.contains(b) && #[trigger] key(a) == #[trigger] key(
                b,
            ) implies a == b by {
            let m = choose|m: int| 0 <= m < s1.len() && s1[m] == a;
            let n = choose|n: int| 0 <= n < s1.len() && s1[n] == b;
            assert(s[m] == a && s[n] == b);
        }
        lemma_same_elements(s1, t1, key);
    }
}

/// The order does not depend on how the elements came, where different
/// elements have different keys.
pub proof fn lemma_ordered_unique<A>(s: Seq<A>, t: Seq<A>, key: spec_fn(A) -> Seq<Seq<char>>)
    requires
        s.to_multiset() == t.to_multiset(),
        forall|a: A, b: A|
            s.contains(a) && s.contains(b) && #[trigger] key(a) == #[trigger] key(b) ==> a == b,
    ensures
        ordered(s, key) == ordered(t, key),
{
    lemma_ordered(s, key);
    lemma_ordered(t, key);
    assert forall|a: A, b: A|
        ordered(s, key).contains(a) && ordered(s, key).contains(b) && #[trigger] key(a)
            == #[trigger] key(b) implies a == b by {
        lemma_ordered_contains(s, key, a);
        lemma_ordered_contains(s, key, b);
    }
    lemma_same_elements(ordered(s, key), ordered(t, key), key);
}

/// An item with the key it is ordered by.
pub struct Keyed<T> {
    pub key: Vec<String>,
    pub item: T,
}

pub open spec fn key_of<T>() -> spec_fn(Keyed<T>) -> Seq<Seq<char>> {
    |k: Keyed<T>| value::views(k.key@)
}

/// Puts the items in the order of their keys.
pub fn order_by_key<T>(items: Vec<Keyed<T>>) -> (r: Vec<Keyed<T>>)
    ensures
        r@ == ordered(items@, key_of::<T>()),
{
    let mut source = items;
    let ghost all = items@;
    let mut rest: Vec<Keyed<T>> = Vec::new();
    // Reversed, so that the items come off the end in their given order.
    while source.len() > 0
        invariant
            source.len() + rest.len() == all.len(),
            forall|j: int| 0 <= j < source.len() ==> #[trigger] source@[j] == all[j],
            forall|j: int|
                0 <= j < rest.len() ==> #[trigger] rest@[j] == all[all.len() - 1 - j],
        decreases source.len(),
    {
        let x = source.pop().unwrap();
        rest.push(x);
    }
    let mut out: Vec<Keyed<T>> = Vec::new();
    assert(all.take(0) =~= Seq::empty());
    while rest.len() > 0
        invariant
            rest.len() <= all.len(),
            forall|j: int|
                0 <= j < rest.len() ==> #[trigger] rest@[j] == all[all.len() - 1 - j],
            out@ == ordered(all.take(all.len() - rest.len()), key_of::<T>()),
        decreases rest.len(),
    {
        let ghost n = all.len() - rest.len();
        let x = rest.pop().unwrap();
        proof {
            assert(x == all[n]);
            assert(all.take(n + 1).drop_last() =~= all.take(n));
        }
        let ghost before = out@;
        let mut p: usize = out.len();
        assert(before.take(p as int) =~= before);
        assert(placed(before, key_of::<T>(), x) =~= placed(before.take(p as int), key_of::<T>(), x)
            + before.skip(p as int));
        while p > 0 && !key_at_or_before(&out[p - 1].key, &x.key)
            invariant
                p <= out.len(),
                out@ == before,
                placed(before, key_of::<T>(), x) == placed(before.take(p as int), key_of::<T>(), x)
                    + before.skip(p as int),
            decreases p,
        {
            proof {
                let t = before.take(p as int);
                assert(t.drop_last() =~= before.take(p - 1));
                assert(placed(t, key_of::<T>(), x) == placed(
                    t.drop_last(),
                    key_of::<T>(),
                    x,
                ).push(t.last()));
                assert(placed(before, key_of::<T>(), x) =~= placed(
                    before.take(p - 1),
                    key_of::<T>(),
                    x,
                ) + before.skip(p - 1));
            }
            p = p - 1;
        }
        proof {
            let t = before.take(p as int);
            if p > 0 {
                assert(t.last() == before[p - 1]);
            }
            assert(placed(t, key_of::<T>(), x) == t.push(x));
            assert(before.insert(p as int, x) =~= t.push(x) + before.skip(p as int));
        }
        out.insert(p, x);
    }
    assert(all.take(all.len() as int) =~= all);
    out
}

/// The views of keyed items.
pub open spec fn item_views<T: View>(items: Seq<Keyed<T>>) -> Seq<T::V> {
    items.map_values(|k: Keyed<T>| k.item@)
}

/// Puts the items in the order that `key` gives their views; each item comes
/// with that key.
pub fn order_items<T: View>(
    items: Vec<Keyed<T>>,
    Ghost(key): Ghost<spec_fn(T::V) -> Seq<Seq<char>>>,
) -> (r: Vec<T>)
    requires
        forall|i: int|
            0 <= i < items.len() ==> value::views((#[trigger] items@[i]).key@) == key(
                items@[i].item@,
            ),
    ensures
        value::views(r@) == ordered(item_views(items@), key),
{
    let ghost all = items@;
    let sorted = order_by_key(items);
    proof {
        lemma_ordered_map(all, key_of::<T>(), |k: Keyed<T>| k.item@, key);
    }
    let ghost keyed = sorted@;
    let mut rest = sorted;
    let mut back: Vec<T> = Vec::new();
    while rest.len() > 0
        invariant
            rest.len() + back.len() == keyed.len(),
            forall|j: int| 0 <= j < rest.len() ==> #[trigger] rest@[j] == keyed[j],
            forall|j: int|
                0 <= j < back.len() ==> #[trigger] back@[j] == keyed[keyed.len() - 1 - j].item,
        decreases rest.len(),
    {
        let x = rest.pop().unwrap();
        back.push(x.item);
    }
    let mut out: Vec<T> = Vec::new();
    while back.len() > 0
        invariant
            out.len() + back.len() == keyed.len(),
            forall|j: int|
                0 <= j < back.len() ==> #[trigger] back@[j] == keyed[keyed.len() - 1 - j].item,
            forall|j: int| 0 <= j < out.len() ==> #[trigger] out@[j] == keyed[j].item,
        decreases back.len(),
    {
        let x = back.pop().unwrap();
        out.push(x);
    }
    assert(value::views(out@) =~= item_views(keyed));
    out
}

} // verus!
