//! Sorted listings: sequences in strictly increasing order, the one sorted listing of a
//! finite set, and walking a `BTreeMap` in the order of its keys.
use vstd::prelude::*;
use std::collections::BTreeMap;
use vstd::std_specs::iter::IteratorSpec;

verus! {

/// `s` comes in strictly increasing order by `lt`.
pub open spec fn sorted_by<T>(s: Seq<T>, lt: spec_fn(T, T) -> bool) -> bool {
    forall|i: int, j: int| 0 <= i < j < s.len() ==> lt(#[trigger] s[i], #[trigger] s[j])
}

/// `lt` is a strict total order.
pub open spec fn strict_total<T>(lt: spec_fn(T, T) -> bool) -> bool {
    &&& forall|x: T| !#[trigger] lt(x, x)
    &&& forall|x: T, y: T, z: T| #[trigger] lt(x, y) && #[trigger] lt(y, z) ==> lt(x, z)
    &&& forall|x: T, y: T| x != y ==> #[trigger] lt(x, y) || lt(y, x)
}

/// The elements of the finite set `s` in strictly increasing order by `lt`.
pub open spec fn in_order<T>(s: Set<T>, lt: spec_fn(T, T) -> bool) -> Seq<T> {
    choose|q: Seq<T>| sorted_by(q, lt) && forall|x: T| q.contains(x) <==> s.contains(x)
}

/// The values of a map, by increasing key.
pub open spec fn listing<K, V>(m: Map<K, V>, lt: spec_fn(K, K) -> bool) -> Seq<V> {
    in_order(m.dom(), lt).map_values(|k: K| m[k])
}

/// Two sequences sorted by the same strict total order, with the same elements, are equal.
pub proof fn lemma_sorted_unique<T>(a: Seq<T>, b: Seq<T>, lt: spec_fn(T, T) -> bool)
    requires
        strict_total(lt),
        sorted_by(a, lt),
        sorted_by(b, lt),
        forall|x: T| a.contains(x) <==> b.contains(x),
    ensures
        a == b,
    decreases a.len(),
{
    if a.len() == 0 {
        if b.len() > 0 {
            assert(b.contains(b[0]));
        }
        assert(a =~= b);
    } else {
        assert(a.contains(a[0]));
        assert(b.contains(a[0]));
        assert(b.len() > 0);
        assert(b.contains(b[0]));
        assert(a.contains(b[0]));
        let j = choose|j: int| 0 <= j < b.len() && b[j] == a[0];
        let i = choose|i: int| 0 <= i < a.len() && a[i] == b[0];
        if a[0] != b[0] {
            assert(j > 0 && i > 0);
            assert(lt(b[0], b[j]));
            assert(lt(a[0], a[i]));
            assert(lt(b[0], b[0]));
        }
        let a1 = a.drop_first();
        let b1 = b.drop_first();
        assert forall|x: T| a1.contains(x) <==> b1.contains(x) by {
            if a1.contains(x) {
                let k = choose|k: int| 0 <= k < a1.len() && a1[k] == x;
                assert(a[k + 1] == x);
                assert(lt(a[0], a[k + 1]));
                assert(a.contains(x));
                let l = choose|l: int| 0 <= l < b.len() && b[l] == x;
                if l == 0 {
                    assert(lt(x, x));
                }
                assert(b1[l - 1] == x);
            }
            if b1.contains(x) {
                let k = choose|k: int| 0 <= k < b1.len() && b1[k] == x;
                assert(b[k + 1] == x);
                assert(lt(b[0], b[k + 1]));
                assert(b.contains(x));
                let l = choose|l: int| 0 <= l < a.len() && a[l] == x;
                if l == 0 {
                    assert(lt(x, x));
                }
                assert(a1[l - 1] == x);
            }
        }
        assert(sorted_by(a1, lt)) by {
            assert forall|p: int, q: int| 0 <= p < q < a1.len() implies lt(#[trigger] a1[p], #[trigger] a1[q]) by {
                assert(a1[p] == a[p + 1] && a1[q] == a[q + 1]);
            }
        }
        assert(sorted_by(b1, lt)) by {
            assert forall|p: int, q: int| 0 <= p < q < b1.len() implies lt(#[trigger] b1[p], #[trigger] b1[q]) by {
                assert(b1[p] == b[p + 1] && b1[q] == b[q + 1]);
            }
        }
        lemma_sorted_unique(a1, b1, lt);
        assert(a =~= seq![a[0]] + a1);
        assert(b =~= seq![b[0]] + b1);
    }
}

/// A sorted listing of a set's elements is the one `in_order` names.
pub proof fn lemma_in_order<T>(q: Seq<T>, s: Set<T>, lt: spec_fn(T, T) -> bool)
    requires
        strict_total(lt),
        sorted_by(q, lt),
        forall|x: T| q.contains(x) <==> s.contains(x),
    ensures
        in_order(s, lt) == q,
{
    let c = in_order(s, lt);
    assert(sorted_by(c, lt) && forall|x: T| c.contains(x) <==> s.contains(x));
    lemma_sorted_unique(c, q, lt);
}

/// Numbers by size.
pub open spec fn num_lt() -> spec_fn(u32, u32) -> bool {
    |a: u32, b: u32| a < b
}

/// Keys that a `BTreeMap` walks in increasing order are sorted by size.
pub proof fn lemma_walked_keys_sorted(s: Seq<u32>)
    requires
        vstd::std_specs::btree::increasing_seq(s),
    ensures
        sorted_by(s, num_lt()),
{
    assert(vstd::laws_cmp::obeys_cmp::<u32>());
    assert forall|i: int, j: int| 0 <= i < j < s.len() implies num_lt()(#[trigger] s[i], #[trigger] s[j]) by {
        assert(vstd::std_specs::cmp::OrdSpec::cmp_spec(&s[i], &s[j]) is Less);
    }
}

/// Numbers are keys that a `BTreeMap` keeps in order.
pub proof fn lemma_number_keys_ordered()
    ensures
        vstd::std_specs::btree::key_obeys_cmp_spec::<u32>(),
{
    assert(vstd::laws_cmp::obeys_cmp::<u32>());
}

/// What walking a `BTreeMap` keyed by numbers gives: its pairs, by increasing key, each
/// key of the map once.
pub open spec fn walk_of<V>(all: Seq<(&u32, &V)>, m: Map<u32, V>) -> bool {
    &&& sorted_by(all.map_values(|kv: (&u32, &V)| *kv.0), num_lt())
    &&& forall|i: int| 0 <= i < all.len() ==> m.contains_key(*(#[trigger] all[i]).0) && m[*all[i].0] == *all[i].1
    &&& forall|k: u32| #[trigger] m.contains_key(k) ==> all.contains((&k, &m[k]))
}

/// Walks the map `m` and gives its pairs in order.
pub(crate) fn walk_keys<'a, V>(m: &'a BTreeMap<u32, V>) -> (r: Vec<(&'a u32, &'a V)>)
    ensures
        walk_of(r@, m@),
{
    let ghost all = vstd::std_specs::btree::spec_btree_map_iter(m).remaining();
    proof {
        lemma_number_keys_ordered();
    }
    let mut r: Vec<(&'a u32, &'a V)> = Vec::new();
    for kv in it: m.iter()
        invariant
            it.seq() == all,
            vstd::std_specs::btree::increasing_seq(all.map_values(|kv: (&u32, &V)| *kv.0)),
            r@ == all.take(it.index() as int),
    {
        proof {
            assert(all.take(it.index() + 1) =~= all.take(it.index() as int).push(kv));
        }
        r.push(kv);
    }
    proof {
        assert(r@ =~= all);
        lemma_walked_keys_sorted(all.map_values(|kv: (&u32, &V)| *kv.0));
    }
    r
}

/// Signed numbers by size.
pub open spec fn signed_lt() -> spec_fn(i32, i32) -> bool {
    |a: i32, b: i32| a < b
}

/// Signed numbers are keys that a `BTreeMap` keeps in order.
pub proof fn lemma_signed_keys_ordered()
    ensures
        vstd::std_specs::btree::key_obeys_cmp_spec::<i32>(),
{
    assert(vstd::laws_cmp::obeys_cmp::<i32>());
}

/// Signed keys that a `BTreeMap` walks in increasing order are sorted by size.
pub proof fn lemma_walked_signed_keys_sorted(s: Seq<i32>)
    requires
        vstd::std_specs::btree::increasing_seq(s),
    ensures
        sorted_by(s, signed_lt()),
{
    assert(vstd::laws_cmp::obeys_cmp::<i32>());
    assert forall|i: int, j: int| 0 <= i < j < s.len() implies signed_lt()(#[trigger] s[i], #[trigger] s[j]) by {
        assert(vstd::std_specs::cmp::OrdSpec::cmp_spec(&s[i], &s[j]) is Less);
    }
}

/// What walking a `BTreeMap` keyed by signed numbers gives: its pairs, by increasing
/// key, each key of the map once.
pub open spec fn signed_walk_of<V>(all: Seq<(&i32, &V)>, m: Map<i32, V>) -> bool {
    &&& sorted_by(all.map_values(|kv: (&i32, &V)| *kv.0), signed_lt())
    &&& forall|i: int| 0 <= i < all.len() ==> m.contains_key(*(#[trigger] all[i]).0) && m[*all[i].0] == *all[i].1
    &&& forall|k: i32| #[trigger] m.contains_key(k) ==> all.contains((&k, &m[k]))
}

/// Walks the map `m`, keyed by signed numbers, and gives its pairs in order.
pub(crate) fn walk_signed_keys<'a, V>(m: &'a BTreeMap<i32, V>) -> (r: Vec<(&'a i32, &'a V)>)
    ensures
        signed_walk_of(r@, m@),
{
    let ghost all = vstd::std_specs::btree::spec_btree_map_iter(m).remaining();
    proof {
        lemma_signed_keys_ordered();
    }
    let mut r: Vec<(&'a i32, &'a V)> = Vec::new();
    for kv in it: m.iter()
        invariant
            it.seq() == all,
            vstd::std_specs::btree::increasing_seq(all.map_values(|kv: (&i32, &V)| *kv.0)),
            r@ == all.take(it.index() as int),
    {
        proof {
            assert(all.take(it.index() + 1) =~= all.take(it.index() as int).push(kv));
        }
        r.push(kv);
    }
    proof {
        assert(r@ =~= all);
        lemma_walked_signed_keys_sorted(all.map_values(|kv: (&i32, &V)| *kv.0));
    }
    r
}

} // verus!
