//! The type graph as a mathematical object: its edges, paths, and what it
//! means for it to be free of cycles.

use std::collections::BTreeMap;

use vstd::prelude::*;
use vstd::std_specs::cmp::OrdSpec;
use vstd::std_specs::iter::IteratorSpec;

use crate::build::Type;

verus! {

broadcast use vstd::std_specs::btree::group_btree_axioms, vstd::laws_cmp::group_laws_cmp;

/// Every ID a type in `m` refers to names a type in `m`.
pub open spec fn closed(m: Map<u64, Type>) -> bool {
    forall|a: u64, b: u64| m.contains_key(a) && (#[trigger] m[a].spec_children()).contains(b) ==> #[trigger] m.contains_key(b)
}

/// `b` contributes to the size of `a`.
pub open spec fn contains_edge(m: Map<u64, Type>, a: u64, b: u64) -> bool {
    m.contains_key(a) && m[a].spec_contained().contains(b)
}

/// `a` and `b` are anonymous (built-in or container) types and `a` refers
/// to `b`.
pub open spec fn anon_edge(m: Map<u64, Type>, a: u64, b: u64) -> bool {
    &&& m.contains_key(a)
    &&& m.contains_key(b)
    &&& !m[a].spec_is_named()
    &&& !m[b].spec_is_named()
    &&& m[a].spec_children().contains(b)
}

/// `p` is a walk along containment edges.
pub open spec fn contains_path(m: Map<u64, Type>, p: Seq<u64>) -> bool {
    &&& p.len() >= 1
    &&& forall|i: int| 0 <= i < p.len() - 1 ==> contains_edge(m, #[trigger] p[i], p[i + 1])
}

/// `p` is a walk along edges between anonymous types.
pub open spec fn anon_path(m: Map<u64, Type>, p: Seq<u64>) -> bool {
    &&& p.len() >= 1
    &&& forall|i: int| 0 <= i < p.len() - 1 ==> anon_edge(m, #[trigger] p[i], p[i + 1])
}

/// `rank` strictly decreases along every containment edge.
pub open spec fn contains_ranked(m: Map<u64, Type>, rank: Map<u64, nat>) -> bool {
    forall|a: u64, b: u64| #[trigger] contains_edge(m, a, b) ==> rank.contains_key(a) && rank.contains_key(b)
        && rank[b] < rank[a]
}

/// `rank` strictly decreases along every edge between anonymous types.
pub open spec fn anon_ranked(m: Map<u64, Type>, rank: Map<u64, nat>) -> bool {
    forall|a: u64, b: u64| #[trigger] anon_edge(m, a, b) ==> rank.contains_key(a) && rank.contains_key(b)
        && rank[b] < rank[a]
}

/// No type contains itself, directly or through other types: the
/// containment graph is free of cycles.
pub open spec fn contains_acyclic(m: Map<u64, Type>) -> bool {
    exists|rank: Map<u64, nat>| contains_ranked(m, rank)
}

/// No cycle runs through anonymous types only.
pub open spec fn anon_acyclic(m: Map<u64, Type>) -> bool {
    exists|rank: Map<u64, nat>| anon_ranked(m, rank)
}

/// `c` lies on a cycle of containment edges.
pub open spec fn on_contains_cycle(m: Map<u64, Type>, c: u64) -> bool {
    exists|p: Seq<u64>| contains_path(m, p) && p.len() >= 2 && p[0] == c && p.last() == c
}

/// Along a path, a ranking falls by at least one per edge.
pub proof fn lemma_anon_ranked_path(m: Map<u64, Type>, rank: Map<u64, nat>, p: Seq<u64>)
    requires
        anon_ranked(m, rank),
        anon_path(m, p),
        p.len() >= 2,
    ensures
        rank.contains_key(p[0]),
        rank.contains_key(p.last()),
        rank[p.last()] + p.len() - 1 <= rank[p[0]],
    decreases p.len(),
{
    assert(anon_edge(m, p[0], p[1]));
    if p.len() > 2 {
        let q = p.drop_first();
        assert forall|i: int| 0 <= i < q.len() - 1 implies anon_edge(m, #[trigger] q[i], q[i + 1]) by {
            assert(q[i] == p[i + 1]);
            assert(anon_edge(m, p[i + 1], p[i + 2]));
        }
        lemma_anon_ranked_path(m, rank, q);
        assert(q.last() == p.last());
    }
}

/// A cycle through anonymous types rules out every ranking.
pub proof fn lemma_anon_cycle_unranked(m: Map<u64, Type>, t: u64, c: u64, p: Seq<u64>)
    requires
        anon_edge(m, t, c),
        anon_path(m, p),
        p[0] == c,
        p.last() == t,
    ensures
        !anon_acyclic(m),
{
    if anon_acyclic(m) {
        let rank = choose|rank: Map<u64, nat>| anon_ranked(m, rank);
        let q = p.push(c);
        assert forall|i: int| 0 <= i < q.len() - 1 implies anon_edge(m, #[trigger] q[i], q[i + 1]) by {
            if i < p.len() - 1 {
                assert(q[i] == p[i] && q[i + 1] == p[i + 1]);
                assert(anon_edge(m, p[i], p[i + 1]));
            } else {
                assert(q[i] == t);
            }
        }
        lemma_anon_ranked_path(m, rank, q);
    }
}

/// `u64` keys are ordered as the integers are, which the specifications
/// of `BTreeMap` and `BTreeSet` rest on.
pub proof fn lemma_u64_key_order()
    ensures
        vstd::laws_cmp::obeys_cmp::<u64>(),
{
}

proof fn lemma_increasing_u64<'a>(s: Seq<&'a u64>)
    requires
        vstd::std_specs::btree::increasing_seq(s),
    ensures
        forall|i: int, j: int| 0 <= i < j < s.len() ==> *s[i] < *s[j],
{
    assert(vstd::laws_cmp::obeys_cmp::<u64>());
    assert(vstd::laws_cmp::obeys_cmp::<&u64>());
    vstd::std_specs::btree::axiom_increasing_seq_meaning::<&u64>(s);
    assert forall|i: int, j: int| 0 <= i < j < s.len() implies *s[i] < *s[j] by {
        assert(OrdSpec::cmp_spec(&s[i], &s[j]) is Less);
    }
}

/// The keys of `m`, in increasing order.
pub fn sorted_keys<V>(m: &BTreeMap<u64, V>) -> (v: Vec<u64>)
    ensures
        forall|k: u64| #[trigger] v@.contains(k) <==> m@.contains_key(k),
        forall|i: int, j: int| 0 <= i < j < v@.len() ==> v@[i] < v@[j],
        v@.no_duplicates(),
{
    let mut v: Vec<u64> = Vec::new();
    let ghost ks = vstd::std_specs::btree::spec_keys_iter(m).remaining();
    proof {
        vstd::std_specs::btree::axiom_spec_keys_iter(m);
    }
    for k in it: m.keys()
        invariant
            it.seq() == ks,
            v@ == it.seq().take(it.index() as int).map_values(|r: &u64| *r),
    {
        v.push(*k);
    }
    proof {
        assert(v@ == ks.map_values(|r: &u64| *r));
        assert(ks.unref().to_set() == m@.dom());
        assert(ks.unref() == ks.map_values(|r: &u64| *r));
        assert(ks.unref() =~= v@);
        lemma_increasing_u64(ks);
        assert forall|k: u64| #[trigger] v@.contains(k) <==> m@.contains_key(k) by {
            assert(v@.to_set().contains(k) == v@.contains(k));
        }
        assert forall|i: int, j: int| 0 <= i < v@.len() && 0 <= j < v@.len() && i != j implies v@[i] != v@[j] by {
            if i < j {
                assert(v@[i] < v@[j]);
            } else {
                assert(v@[j] < v@[i]);
            }
        }
    }
    v
}

} // verus!
