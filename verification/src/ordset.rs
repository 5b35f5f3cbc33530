//! Reading std's ordered collections: the least element of a set, all of them
//! in ascending order, and the keys of a map.

use std::collections::{BTreeMap, BTreeSet};
use vstd::laws_cmp::obeys_cmp;
use vstd::prelude::*;
use vstd::std_specs::btree::{increasing_seq, spec_btree_keys_iter, spec_keys_iter};
use vstd::std_specs::cmp::OrdSpec;
use vstd::std_specs::iter::IteratorSpec;

verus! {

/// Whether `s` lists its elements in ascending order.
pub open spec fn ascending<K: Ord>(s: Seq<K>) -> bool {
    forall|i: int, j: int|
        #![trigger s[i], s[j]]
        0 <= i < j < s.len() ==> s[i].cmp_spec(&s[j]) is Less
}

/// Keys of this type are ordered as std documents.
pub broadcast proof fn lemma_ordered_number()
    ensures
        #[trigger] obeys_cmp::<u64>(),
{
    broadcast use vstd::laws_cmp::group_laws_cmp;

}

/// Keys of this type are ordered as std documents.
pub broadcast proof fn lemma_ordered_index()
    ensures
        #[trigger] obeys_cmp::<usize>(),
{
    broadcast use vstd::laws_cmp::group_laws_cmp;

}

/// Keys of this type are ordered as std documents.
pub broadcast proof fn lemma_ordered_small_pair()
    ensures
        #[trigger] obeys_cmp::<(u32, u64)>(),
{
    broadcast use vstd::laws_cmp::group_laws_cmp;

}

/// Keys of this type are ordered as std documents.
pub broadcast proof fn lemma_ordered_pair()
    ensures
        #[trigger] obeys_cmp::<(u64, u64)>(),
{
    broadcast use vstd::laws_cmp::group_laws_cmp;

}

/// Keys of this type are ordered as std documents.
pub broadcast proof fn lemma_ordered_index_pair()
    ensures
        #[trigger] obeys_cmp::<(u64, usize)>(),
{
    broadcast use vstd::laws_cmp::group_laws_cmp;

}

/// The keys that the engine's collections have are ordered as std documents.
pub broadcast group group_ordered {
    lemma_ordered_number,
    lemma_ordered_index,
    lemma_ordered_small_pair,
    lemma_ordered_pair,
    lemma_ordered_index_pair,
}

proof fn lemma_ascending<K: Ord>(s: Seq<&K>)
    requires
        obeys_cmp::<K>(),
        increasing_seq(s),
    ensures
        ascending(s.unref()),
{
    broadcast use vstd::std_specs::btree::group_btree_axioms;
    broadcast use vstd::laws_cmp::group_laws_cmp;

    assert(obeys_cmp::<&K>());
    assert(increasing_seq::<&K>(s));
    assert forall|i: int, j: int|
        #![trigger s.unref()[i], s.unref()[j]]
        0 <= i < j < s.len() implies s.unref()[i].cmp_spec(&s.unref()[j]) is Less by {
        assert(OrdSpec::cmp_spec(&s[i], &s[j]) is Less);
    }
}

/// Pairs that ascend do so by the first number, then by the second.
pub(crate) proof fn lemma_pairs_ascend(s: Seq<(u64, u64)>)
    requires
        ascending(s),
    ensures
        forall|i: int, j: int|
            #![trigger s[i], s[j]]
            0 <= i < j < s.len() ==> s[i].0 < s[j].0 || (s[i].0 == s[j].0 && s[i].1 < s[j].1),
{
    broadcast use vstd::laws_cmp::group_laws_cmp;

    assert forall|i: int, j: int| #![trigger s[i], s[j]] 0 <= i < j < s.len() implies s[i].0
        < s[j].0 || (s[i].0 == s[j].0 && s[i].1 < s[j].1) by {
        assert(s[i].cmp_spec(&s[j]) is Less);
    }
}

/// Pairs that ascend do so by the first number, then by the second.
pub(crate) proof fn lemma_small_pairs_ascend(s: Seq<(u32, u64)>)
    requires
        ascending(s),
    ensures
        forall|i: int, j: int|
            #![trigger s[i], s[j]]
            0 <= i < j < s.len() ==> s[i].0 < s[j].0 || (s[i].0 == s[j].0 && s[i].1 < s[j].1),
{
    broadcast use vstd::laws_cmp::group_laws_cmp;

    assert forall|i: int, j: int| #![trigger s[i], s[j]] 0 <= i < j < s.len() implies s[i].0
        < s[j].0 || (s[i].0 == s[j].0 && s[i].1 < s[j].1) by {
        assert(s[i].cmp_spec(&s[j]) is Less);
    }
}

/// A set in memory is finite.
pub(crate) proof fn lemma_finite<K: Ord>(s: &BTreeSet<K>)
    ensures
        s@.finite(),
{
    broadcast use vstd::std_specs::btree::group_btree_axioms;

    vstd::seq_lib::seq_to_set_is_finite(spec_btree_keys_iter(s).remaining().unref());
}

/// The elements of `s`, ascending.
pub(crate) fn items<K: Ord + Copy>(s: &BTreeSet<K>) -> (r: Vec<K>)
    requires
        obeys_cmp::<K>(),
    ensures
        r@.to_set() == s@,
        r@.no_duplicates(),
        ascending(r@),
{
    broadcast use vstd::std_specs::btree::group_btree_axioms;
    broadcast use vstd::laws_cmp::group_laws_cmp;

    let mut v: Vec<K> = Vec::new();
    proof {
        lemma_ascending(spec_btree_keys_iter(s).remaining());
    }
    for k in it: s.iter()
        invariant
            obeys_cmp::<K>(),
            it.seq().unref().to_set() == s@,
            it.seq().no_duplicates(),
            ascending(it.seq().unref()),
            v@ == it.seq().unref().take(it.index()),
            it.index() == it.seq().len() ==> v@ == it.seq().unref(),
    {
        v.push(*k);
    }
    v
}

/// The least element of `s`.
pub(crate) fn first<K: Ord + Copy>(s: &BTreeSet<K>) -> (r: Option<K>)
    requires
        obeys_cmp::<K>(),
    ensures
        match r {
            None => s@ =~= Set::<K>::empty(),
            Some(p) => s@.contains(p) && forall|q: K| #[trigger]
                s@.contains(q) ==> q == p || p.cmp_spec(&q) is Less,
        },
{
    broadcast use vstd::std_specs::btree::group_btree_axioms;
    broadcast use vstd::laws_cmp::group_laws_cmp;

    proof {
        lemma_ascending(spec_btree_keys_iter(s).remaining());
    }
    for p in it: s.iter()
        invariant
            obeys_cmp::<K>(),
            it.index() == 0,
            it.seq().len() == s@.len(),
            it.seq().unref().to_set() == s@,
            ascending(it.seq().unref()),
    {
        assert(it.seq().unref()[0] == *p);
        assert forall|q: K| #[trigger] s@.contains(q) implies q == *p || p.cmp_spec(
            &q,
        ) is Less by {
            assert(it.seq().unref().to_set().contains(q));
            let i = it.seq().unref().index_of(q);
            assert(it.seq().unref()[i] == q);
        }
        return Some(*p);
    }
    assert(s@.len() == 0);
    None
}

/// Whether `a` comes no later than `b`: by the time, then by the number.
pub open spec fn time_le(a: (u64, u64), b: (u64, u64)) -> bool {
    a.0 < b.0 || (a.0 == b.0 && a.1 <= b.1)
}

/// What iterating over a set of times and connections yields: each of its
/// elements, in order.
pub(crate) proof fn lemma_iter_pairs(s: &BTreeSet<(u64, u64)>)
    ensures
        spec_btree_keys_iter(s).remaining().unref().to_set() == s@,
        forall|i: int, j: int|
            #![trigger spec_btree_keys_iter(s).remaining()[i], spec_btree_keys_iter(s).remaining()[j]]
            0 <= i < j < spec_btree_keys_iter(s).remaining().len() ==> time_le(
                *spec_btree_keys_iter(s).remaining()[i],
                *spec_btree_keys_iter(s).remaining()[j],
            ),
{
    broadcast use vstd::std_specs::btree::group_btree_axioms;
    broadcast use vstd::laws_cmp::group_laws_cmp;

    let r = spec_btree_keys_iter(s).remaining();
    lemma_ascending(r);
    assert forall|i: int, j: int| #![trigger r[i], r[j]] 0 <= i < j < r.len() implies time_le(
        *r[i],
        *r[j],
    ) by {
        assert(r.unref()[i].cmp_spec(&r.unref()[j]) is Less);
    }
}

/// What iterating over a set of times and tubes yields: each of its elements,
/// the earlier times first.
pub(crate) proof fn lemma_iter_index_pairs(s: &BTreeSet<(u64, usize)>)
    ensures
        spec_btree_keys_iter(s).remaining().unref().to_set() == s@,
        forall|i: int, j: int|
            #![trigger spec_btree_keys_iter(s).remaining()[i], spec_btree_keys_iter(s).remaining()[j]]
            0 <= i < j < spec_btree_keys_iter(s).remaining().len()
                ==> spec_btree_keys_iter(s).remaining()[i].0 <= spec_btree_keys_iter(s).remaining()[j].0,
{
    broadcast use vstd::std_specs::btree::group_btree_axioms;
    broadcast use vstd::laws_cmp::group_laws_cmp;

    let r = spec_btree_keys_iter(s).remaining();
    lemma_ascending(r);
    assert forall|i: int, j: int| #![trigger r[i], r[j]] 0 <= i < j < r.len() implies r[i].0
        <= r[j].0 by {
        assert(r.unref()[i].cmp_spec(&r.unref()[j]) is Less);
    }
}

/// The ready job that comes first: the smallest priority, and of equal ones
/// the smallest number.
pub(crate) fn first_ready(s: &BTreeSet<(u32, u64)>) -> (r: Option<(u32, u64)>)
    ensures
        match r {
            None => s@.is_empty(),
            Some(p) => s@.contains(p) && forall|q: (u32, u64)| #[trigger]
                s@.contains(q) ==> p.0 < q.0 || (p.0 == q.0 && p.1 <= q.1),
        },
{
    broadcast use vstd::laws_cmp::group_laws_cmp;

    first(s)
}

/// The earliest time with its tube.
pub(crate) fn first_time(s: &BTreeSet<(u64, usize)>) -> (r: Option<(u64, usize)>)
    ensures
        match r {
            None => s@.is_empty(),
            Some(p) => s@.contains(p) && forall|q: (u64, usize)| #[trigger]
                s@.contains(q) ==> p.0 <= q.0,
        },
{
    broadcast use vstd::laws_cmp::group_laws_cmp;

    first(s)
}

/// The keys of `m`, ascending.
pub(crate) fn keys_of<V>(m: &BTreeMap<u64, V>) -> (r: Vec<u64>)
    ensures
        r@.to_set() == m@.dom(),
        forall|i: int, j: int| 0 <= i < j < r@.len() ==> r@[i] < r@[j],
{
    broadcast use vstd::std_specs::btree::group_btree_axioms;
    broadcast use vstd::laws_cmp::group_laws_cmp;

    let mut v: Vec<u64> = Vec::new();
    proof {
        lemma_ascending(spec_keys_iter(m).remaining());
    }
    for k in it: m.keys()
        invariant
            it.seq().unref().to_set() == m@.dom(),
            ascending(it.seq().unref()),
            v@ == it.seq().unref().take(it.index()),
            it.index() == it.seq().len() ==> v@ == it.seq().unref(),
    {
        v.push(*k);
    }
    v
}

/// An element of `a` that is not in `b`, if there is one.
pub(crate) fn missing<K: Ord + Copy>(a: &BTreeSet<K>, b: &BTreeSet<K>) -> (r: Option<K>)
    requires
        obeys_cmp::<K>(),
    ensures
        r is None <==> a@.subset_of(b@),
        r is Some ==> a@.contains(r->0) && !b@.contains(r->0),
{
    broadcast use vstd::std_specs::btree::group_btree_axioms;

    let v = items(a);
    let n: usize = v.len();
    let mut i: usize = 0;
    while i < n
        invariant
            obeys_cmp::<K>(),
            i <= n,
            n == v@.len(),
            v@.to_set() == a@,
            forall|k: int| 0 <= k < i ==> b@.contains(#[trigger] v@[k]),
        decreases n - i,
    {
        assert(v@.to_set().contains(v@[i + 0]));
        if !b.contains(&v[i]) {
            return Some(v[i]);
        }
        i = i + 1;
    }
    assert forall|k: K| a@.contains(k) implies b@.contains(k) by {
        assert(v@.to_set().contains(k));
        assert(v@[v@.index_of(k)] == k);
    }
    None
}

/// Whether the two sets have the same elements.
pub(crate) fn same_set<K: Ord + Copy>(a: &BTreeSet<K>, b: &BTreeSet<K>) -> (r: bool)
    requires
        obeys_cmp::<K>(),
    ensures
        r == (a@ == b@),
{
    let r = a.len() == b.len() && missing(a, b).is_none() && missing(b, a).is_none();
    assert(r ==> a@ =~= b@);
    r
}

} // verus!
