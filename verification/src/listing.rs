//! Listing the entries of a map of domain points in the order of their share indices.

use std::collections::HashMap;
use crate::field::Scalar;
use vstd::std_specs::iter::IteratorSpec;
use vstd::prelude::*;

verus! {

/// `k` is the key of some entry of `s`.
pub open spec fn key_listed(s: Seq<(u32, Scalar)>, k: u32) -> bool {
    exists|t: int| 0 <= t < s.len() && #[trigger] s[t].0 == k
}

/// `sorted` lists the entries of `m`, each once, by strictly increasing key.
pub open spec fn is_sorted_listing(sorted: Seq<(u32, Scalar)>, m: Map<u32, Scalar>) -> bool {
    &&& sorted.len() == m.dom().len()
    &&& forall|i: int, j: int| 0 <= i < j < sorted.len() ==> #[trigger] sorted[i].0 < #[trigger] sorted[j].0
    &&& forall|i: int|
        0 <= i < sorted.len() ==> m.contains_key(#[trigger] sorted[i].0) && m[sorted[i].0]
            == sorted[i].1
    &&& forall|k: u32| m.contains_key(k) ==> #[trigger] key_listed(sorted, k)
}

/// The sorted listing of the map's entries.
pub open spec fn sorted_listing(m: Map<u32, Scalar>) -> Seq<(u32, Scalar)> {
    choose|s: Seq<(u32, Scalar)>| is_sorted_listing(s, m)
}

/// The position of the key `k` in the sorted listing of the map's entries.
pub open spec fn sorted_position(m: Map<u32, Scalar>, k: u32) -> int {
    choose|p: int| 0 <= p < sorted_listing(m).len() && #[trigger] sorted_listing(m)[p].0 == k
}

/// A sorted listing of a map is the map's sorted listing, and each key's position in it is
/// the key's sorted position.
pub proof fn lemma_is_the_sorted_listing(s: Seq<(u32, Scalar)>, m: Map<u32, Scalar>)
    requires
        is_sorted_listing(s, m),
    ensures
        sorted_listing(m) == s,
        forall|p: int| 0 <= p < s.len() ==> sorted_position(m, #[trigger] s[p].0) == p,
{
    lemma_sorted_listing_unique(sorted_listing(m), s, m);
    assert forall|p: int| 0 <= p < s.len() implies sorted_position(m, #[trigger] s[p].0) == p by {
        let k = s[p].0;
        assert(sorted_listing(m)[p].0 == k);
        let q = sorted_position(m, k);
        assert(0 <= q < s.len() && s[q].0 == k);
        lemma_sorted_position_unique(s, s, m, p, q);
    }
}

/// A map has one sorted listing: the listing, and so the position of each key in it, depends
/// on the map's entries alone, never on the order in which the map is walked.
pub proof fn lemma_sorted_listing_unique(
    s1: Seq<(u32, Scalar)>,
    s2: Seq<(u32, Scalar)>,
    m: Map<u32, Scalar>,
)
    requires
        is_sorted_listing(s1, m),
        is_sorted_listing(s2, m),
    ensures
        s1 == s2,
{
    assert forall|i: int| 0 <= i < s1.len() implies s1[i].0 == s2[i].0 by {
        lemma_sorted_listing_keys_agree(s1, s2, m, i);
    }
    assert forall|i: int| 0 <= i < s1.len() implies s1[i] == s2[i] by {
        assert(s1[i].0 == s2[i].0);
        assert(m[s1[i].0] == s1[i].1);
        assert(m[s2[i].0] == s2[i].1);
    }
    assert(s1 =~= s2);
}

/// The position of a key in a sorted listing of a map depends on the map's entries alone: two
/// sorted listings of one map place the key at the same position, so a coefficient chosen by
/// that position is the same whatever order the map is walked in.
pub proof fn lemma_sorted_position_unique(
    s1: Seq<(u32, Scalar)>,
    s2: Seq<(u32, Scalar)>,
    m: Map<u32, Scalar>,
    p1: int,
    p2: int,
)
    requires
        is_sorted_listing(s1, m),
        is_sorted_listing(s2, m),
        0 <= p1 < s1.len(),
        0 <= p2 < s2.len(),
        s1[p1].0 == s2[p2].0,
    ensures
        s1 == s2,
        p1 == p2,
{
    lemma_sorted_listing_unique(s1, s2, m);
    if p1 < p2 {
        assert(s2[p1].0 < s2[p2].0);
    } else if p2 < p1 {
        assert(s1[p2].0 < s1[p1].0);
    }
}

/// The `i`-th keys of two sorted listings of one map agree.
proof fn lemma_sorted_listing_keys_agree(
    s1: Seq<(u32, Scalar)>,
    s2: Seq<(u32, Scalar)>,
    m: Map<u32, Scalar>,
    i: int,
)
    requires
        is_sorted_listing(s1, m),
        is_sorted_listing(s2, m),
        0 <= i < s1.len(),
    ensures
        s1[i].0 == s2[i].0,
    decreases i,
{
    if i > 0 {
        lemma_sorted_listing_keys_agree(s1, s2, m, i - 1);
    }
    // Keys before position `i` agree in both listings.
    assert forall|j: int| 0 <= j < i implies s1[j].0 == s2[j].0 by {
        lemma_sorted_listing_keys_agree(s1, s2, m, j);
    }
    let a = s1[i].0;
    let b = s2[i].0;
    assert(m.contains_key(a));
    assert(m.contains_key(b));
    assert(key_listed(s2, a));
    assert(key_listed(s1, b));
    let t = choose|t: int| 0 <= t < s2.len() && #[trigger] s2[t].0 == a;
    let u = choose|u: int| 0 <= u < s1.len() && #[trigger] s1[u].0 == b;
    if t < i {
        assert(s1[t].0 == s2[t].0);
        assert(s1[t].0 < s1[i].0);
    }
    if u < i {
        assert(s1[u].0 == s2[u].0);
        assert(s2[u].0 < s2[i].0);
    }
    if t > i {
        assert(s2[i].0 < s2[t].0);
        if u > i {
            assert(s1[i].0 < s1[u].0);
        }
    }
}

/// The entries of the map, sorted by key.
pub(crate) fn sorted_entries(m: &HashMap<u32, Scalar>) -> (res: Vec<(u32, Scalar)>)
    ensures
        is_sorted_listing(res@, m@),
{
    broadcast use vstd::std_specs::hash::group_hash_axioms;

    let mut sorted: Vec<(u32, Scalar)> = Vec::new();
    let iter = m.iter();
    let ghost e = iter.remaining();
    assert(e.no_duplicates());
    assert(e.len() == m@.dom().len());
    assert(forall|a: int| 0 <= a < e.len() ==> m@.contains_key(*e[a].0) && m@[*e[a].0] == *e[a].1);
    for item in it: iter
        invariant_except_break
            forall|t: int|
                0 <= t < sorted@.len() ==> exists|a: int|
                    0 <= a < it.index() && *e[a].0 == #[trigger] sorted@[t].0,
        invariant
            it.seq() == e,
            e.no_duplicates(),
            forall|a: int|
                0 <= a < e.len() ==> m@.contains_key(#[trigger] *e[a].0) && m@[*e[a].0] == *e[a].1,
            sorted@.len() == it.index(),
            forall|i: int, j: int|
                0 <= i < j < sorted@.len() ==> #[trigger] sorted@[i].0 < #[trigger] sorted@[j].0,
            forall|t: int|
                0 <= t < sorted@.len() ==> m@.contains_key(#[trigger] sorted@[t].0)
                    && m@[sorted@[t].0] == sorted@[t].1,
            forall|a: int| 0 <= a < it.index() ==> key_listed(sorted@, #[trigger] *e[a].0),
    {
        let k = *item.0;
        let v = *item.1;
        let ghost cur = it.index();
        assert(*e[cur].0 == k && *e[cur].1 == v);
        // `k` is not listed yet: the keys listed come from earlier entries, and the
        // entries of a map have distinct keys.
        assert forall|t: int| 0 <= t < sorted@.len() implies #[trigger] sorted@[t].0 != k by {
            if sorted@[t].0 == k {
                let a = choose|a: int| 0 <= a < cur && *e[a].0 == sorted@[t].0;
                assert(*e[a].1 == m@[k]);
                assert(e[a] == e[cur]);
            }
        }
        let mut pos: usize = 0;
        let mut t: usize = 0;
        while t < sorted.len()
            invariant
                pos <= t <= sorted@.len(),
                forall|i: int, j: int|
                    0 <= i < j < sorted@.len() ==> #[trigger] sorted@[i].0 < #[trigger] sorted@[j].0,
                forall|q: int| 0 <= q < pos ==> #[trigger] sorted@[q].0 < k,
                forall|q: int| pos <= q < t ==> #[trigger] sorted@[q].0 >= k,
            decreases sorted@.len() - t,
        {
            if sorted[t].0 < k {
                pos = t + 1;
            }
            t = t + 1;
        }
        let ghost old_sorted = sorted@;
        sorted.insert(pos, (k, v));
        assert(sorted@ == old_sorted.insert(pos as int, (k, v)));
        assert forall|i: int, j: int|
            0 <= i < j < sorted@.len() implies #[trigger] sorted@[i].0 < #[trigger] sorted@[j].0 by {
            if j < pos {
            } else if j == pos {
            } else if i < pos {
                assert(sorted@[j] == old_sorted[j - 1]);
            } else if i == pos {
                assert(sorted@[j] == old_sorted[j - 1]);
                assert(old_sorted[j - 1].0 != k);
            } else {
                assert(sorted@[i] == old_sorted[i - 1]);
                assert(sorted@[j] == old_sorted[j - 1]);
            }
        }
        assert forall|a: int| 0 <= a < cur + 1 implies key_listed(sorted@, #[trigger] *e[a].0) by {
            if a == cur {
                assert(sorted@[pos as int].0 == *e[a].0);
            } else {
                assert(key_listed(old_sorted, *e[a].0));
                let t0 = choose|t: int| 0 <= t < old_sorted.len() && #[trigger] old_sorted[t].0 == *e[a].0;
                if t0 < pos {
                    assert(sorted@[t0].0 == *e[a].0);
                } else {
                    assert(sorted@[t0 + 1].0 == *e[a].0);
                }
            }
        }
        assert forall|t: int| 0 <= t < sorted@.len() implies exists|a: int|
            0 <= a < cur + 1 && *e[a].0 == #[trigger] sorted@[t].0 by {
            if t == pos {
                assert(*e[cur].0 == sorted@[t].0);
            } else if t < pos {
                assert(old_sorted[t] == sorted@[t]);
                let a0 = choose|a: int| 0 <= a < cur && *e[a].0 == old_sorted[t].0;
            } else {
                assert(old_sorted[t - 1] == sorted@[t]);
                let a0 = choose|a: int| 0 <= a < cur && *e[a].0 == old_sorted[t - 1].0;
            }
        }
    }
    assert forall|k: u32| m@.contains_key(k) implies key_listed(sorted@, k) by {
        assert(e.contains((&k, &m@[k])));
        let a = choose|a: int| 0 <= a < e.len() && e[a] == (&k, &m@[k]);
        assert(*e[a].0 == k);
        assert(key_listed(sorted@, *e[a].0));
    }
    sorted
}

} // verus!
