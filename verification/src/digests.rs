//! Sets of digests: each once, in the order of their texts.
use vstd::prelude::*;
use crate::ids::Digest;
use crate::order;
use crate::order::Keyed;
use crate::value;
use crate::value::Value;

verus! {

broadcast use value::group_views;

/// The elements, each at its first occurrence.
pub open spec fn distinct(s: Seq<Seq<char>>) -> Seq<Seq<char>>
    decreases s.len(),
{
    if s.len() == 0 {
        s
    } else {
        let rest = distinct(s.drop_last());
        if rest.contains(s.last()) {
            rest
        } else {
            rest.push(s.last())
        }
    }
}

/// A text is ordered by itself.
pub open spec fn text_order() -> spec_fn(Seq<char>) -> Seq<Seq<char>> {
    |t: Seq<char>| Seq::empty().push(t)
}

/// The elements, each once and in order.
pub open spec fn sorted_set(s: Seq<Seq<char>>) -> Seq<Seq<char>> {
    order::ordered(distinct(s), text_order())
}

/// Puts digests in order and drops the repeated ones.
pub fn digest_set(all: Vec<Digest>) -> (r: Vec<Digest>)
    ensures
        value::views(r@) == sorted_set(value::views(all@)),
{
    let ghost given = value::views(all@);
    let mut once: Vec<Digest> = Vec::new();
    let mut i: usize = 0;
    assert(given.take(0) =~= Seq::empty());
    while i < all.len()
        invariant
            i <= all.len(),
            given == value::views(all@),
            value::views(once@) == distinct(given.take(i as int)),
        decreases all.len() - i,
    {
        proof {
            assert(given.take(i + 1).last() == all@[i as int]@);
            assert(given.take(i + 1).drop_last() =~= given.take(i as int));
        }
        if !value::occurs(&once, &all[i]) {
            once.push(all[i].copy());
        }
        i = i + 1;
    }
    assert(given.take(i as int) =~= given);
    let ghost listed = value::views(once@);
    let mut keyed: Vec<Keyed<Digest>> = Vec::new();
    let mut k: usize = 0;
    while k < once.len()
        invariant
            k <= once.len(),
            keyed.len() == k,
            listed == value::views(once@),
            forall|j: int|
                0 <= j < k ==> (#[trigger] keyed@[j]).item@ == listed[j] && value::views(
                    keyed@[j].key@,
                ) == text_order()(listed[j]),
        decreases once.len() - k,
    {
        let mut key: Vec<String> = Vec::new();
        key.push(once[k].text.clone());
        assert(value::views(key@) =~= text_order()(listed[k as int]));
        keyed.push(Keyed { key, item: once[k].copy() });
        k = k + 1;
    }
    assert(order::item_views(keyed@) =~= listed);
    order::order_items(keyed, Ghost(text_order()))
}

/// A digest, if there is one, as a sequence.
pub open spec fn one(d: Option<Seq<char>>) -> Seq<Seq<char>> {
    match d {
        Some(x) => Seq::empty().push(x),
        None => Seq::empty(),
    }
}

/// At most one digest is in a sequence of at most one.
pub proof fn lemma_one(x: Option<Seq<char>>, d: Seq<char>)
    ensures
        one(x).contains(d) <==> x == Some(d),
{
    if x == Some(d) {
        assert(one(x)[0] == d);
    }
}

/// Appends a digest, if there is one.
pub fn push_opt(out: &mut Vec<Digest>, d: &Option<Digest>)
    ensures
        value::views(final(out)@) == value::views(old(out)@) + one(value::opt_view(*d)),
{
    let ghost before = value::views(out@);
    if let Some(x) = d {
        out.push(x.copy());
    }
    assert(value::views(out@) =~= before + one(value::opt_view(*d)));
}

/// Appends copies of digests.
pub fn push_all(out: &mut Vec<Digest>, more: &Vec<Digest>)
    ensures
        value::views(final(out)@) == value::views(old(out)@) + value::views(more@),
{
    let ghost before = value::views(out@);
    let mut copies = value::copy_vec(more);
    out.append(&mut copies);
    assert(value::views(out@) =~= before + value::views(more@));
}

/// Two sequences together hold what is in one of them.
pub proof fn lemma_joined(a: Seq<Seq<char>>, b: Seq<Seq<char>>, d: Seq<char>)
    ensures
        (a + b).contains(d) <==> a.contains(d) || b.contains(d),
{
    if (a + b).contains(d) {
        let k = choose|k: int| 0 <= k < (a + b).len() && (a + b)[k] == d;
        if k < a.len() {
            assert(a[k] == d);
        } else {
            assert(b[k - a.len()] == d);
        }
    }
    if a.contains(d) {
        let k = choose|k: int| 0 <= k < a.len() && a[k] == d;
        assert((a + b)[k] == d);
    }
    if b.contains(d) {
        let k = choose|k: int| 0 <= k < b.len() && b[k] == d;
        assert((a + b)[a.len() + k] == d);
    }
}

// ---------- laws ----------

/// A set holds what it was made of, and nothing twice.
pub proof fn law_sets_hold_their_elements_once(s: Seq<Seq<char>>, t: Seq<char>)
    ensures
        sorted_set(s).contains(t) == s.contains(t),
        sorted_set(s).no_duplicates(),
        order::is_ordered(sorted_set(s), text_order()),
{
    broadcast use vstd::seq_lib::group_to_multiset_ensures;

    lemma_distinct(s);
    lemma_distinct_contains(s, t);
    order::lemma_ordered_contains(distinct(s), text_order(), t);
    order::lemma_ordered(distinct(s), text_order());
    distinct(s).lemma_multiset_has_no_duplicates();
    sorted_set(s).lemma_multiset_has_no_duplicates_conv();
}

proof fn lemma_distinct(s: Seq<Seq<char>>)
    ensures
        distinct(s).no_duplicates(),
    decreases s.len(),
{
    if s.len() > 0 {
        lemma_distinct(s.drop_last());
    }
}

proof fn lemma_distinct_contains(s: Seq<Seq<char>>, t: Seq<char>)
    ensures
        distinct(s).contains(t) == s.contains(t),
    decreases s.len(),
{
    if s.len() > 0 {
        let d = s.drop_last();
        let rest = distinct(d);
        lemma_distinct_contains(d, t);
        if s.contains(t) {
            let k = choose|k: int| 0 <= k < s.len() && s[k] == t;
            if k < d.len() {
                assert(d[k] == t);
                assert(rest.contains(t));
                let j = choose|j: int| 0 <= j < rest.len() && rest[j] == t;
                assert(distinct(s)[j] == t);
            } else if !rest.contains(t) {
                assert(distinct(s)[distinct(s).len() - 1] == t);
            }
        }
        if distinct(s).contains(t) {
            let j = choose|j: int| 0 <= j < distinct(s).len() && distinct(s)[j] == t;
            if j < rest.len() {
                assert(rest[j] == t);
                assert(d.contains(t));
                let k = choose|k: int| 0 <= k < d.len() && d[k] == t;
                assert(s[k] == t);
            } else {
                assert(s[s.len() - 1] == t);
            }
        }
    }
}

} // verus!
