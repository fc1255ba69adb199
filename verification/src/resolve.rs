//! Trait resolution as finalization runs it: required traits first, then
//! desired ones, over a graph whose named types start with empty trait
//! sets.

use std::collections::BTreeMap;

use vstd::prelude::*;

use crate::build::Type;
use crate::desired::{desired_resolution, desired_resolved};
use crate::error::Error;
use crate::graph::{anon_acyclic, closed, lemma_u64_key_order, sorted_keys};
use crate::settings::Settings;
use crate::build::enums::{Enum, EnumVariant};
use crate::trait_resolution::{
    find_refusal, first_refused, irrefutable, lemma_irrefutable_agree, refusal_recorded, refusals_recorded, builts_empty, conflicts_exact, containers_ok, natives_ok, required_resolution, required_resolved,
    requirements_met,
};
use crate::traits::{TypespaceTrait, TypespaceTraitSet};

verus! {

broadcast use vstd::std_specs::btree::group_btree_axioms;

/// Two types agreeing but for what finalization computed have the same
/// shape.
pub proof fn lemma_shape_kept(a: Type, b: Type)
    requires
        a.agrees_except_computed(b),
    ensures
        a.spec_children() == b.spec_children(),
        a.spec_is_named() == b.spec_is_named(),
        a.holds_inline() == b.holds_inline(),
        a.spec_contained() == b.spec_contained(),
{
    match (a, b) {
        (Type::Enum(x), Type::Enum(y)) => {
            assert(x.variants == y.variants);
        },
        (Type::Struct(x), Type::Struct(y)) => {
            assert(x.properties == y.properties);
        },
        (Type::TupleStruct(x), Type::TupleStruct(y)) => {
            assert(x.fields == y.fields);
        },
        (Type::NewtypeStruct(x), Type::NewtypeStruct(y)) => {},
        (Type::TypeAlias(x), Type::TypeAlias(y)) => {},
        _ => {},
    }
}

/// Graphs of the same shape are alike in what the graph predicates say.
pub proof fn lemma_same_shape(m1: Map<u64, Type>, m2: Map<u64, Type>)
    requires
        m1.dom() == m2.dom(),
        forall|t: u64| #[trigger] m2.contains_key(t) ==> m2[t].agrees_except_computed(m1[t]),
    ensures
        closed(m1) ==> closed(m2),
        anon_acyclic(m1) ==> anon_acyclic(m2),
        crate::graph::contains_acyclic(m1) ==> crate::graph::contains_acyclic(m2),
{
    assert forall|t: u64| #[trigger] m2.contains_key(t) implies m2[t].spec_children() == m1[t].spec_children() && m2[t].spec_is_named()
        == m1[t].spec_is_named() && m2[t].spec_contained() == m1[t].spec_contained() by {
        lemma_shape_kept(m2[t], m1[t]);
    }
    if closed(m1) {
        assert forall|a: u64, b: u64| m2.contains_key(a) && (#[trigger] m2[a].spec_children()).contains(b) implies #[trigger] m2.contains_key(b) by {
            assert(m1[a].spec_children().contains(b));
        }
    }
    if anon_acyclic(m1) {
        let rank = choose|rank: Map<u64, nat>| crate::graph::anon_ranked(m1, rank);
        assert forall|a: u64, b: u64| #[trigger] crate::graph::anon_edge(m2, a, b) implies rank.contains_key(a) && rank.contains_key(b)
            && rank[b] < rank[a] by {
            assert(crate::graph::anon_edge(m1, a, b));
        }
        assert(crate::graph::anon_ranked(m2, rank));
    }
    if crate::graph::contains_acyclic(m1) {
        let rank = choose|rank: Map<u64, nat>| crate::graph::contains_ranked(m1, rank);
        assert forall|a: u64, b: u64| #[trigger] crate::graph::contains_edge(m2, a, b) implies rank.contains_key(a) && rank.contains_key(b)
            && rank[b] < rank[a] by {
            assert(crate::graph::contains_edge(m1, a, b));
        }
        assert(crate::graph::contains_ranked(m2, rank));
    }
}

/// `m` is `m0` with every named type given an empty trait set, and every
/// enum the refusal of `FromStr` that its variants' payloads in `m0` call
/// for.
pub open spec fn commons_started(m0: Map<u64, Type>, m: Map<u64, Type>) -> bool {
    &&& m.dom() == m0.dom()
    &&& forall|t: u64| #[trigger] m.contains_key(t) ==> m[t].agrees_except_computed(m0[t])
    &&& forall|t: u64| #[trigger] m.contains_key(t) && !m0[t].spec_is_named() ==> m[t] == m0[t]
    &&& forall|t: u64| #[trigger] m.contains_key(t) ==> (m[t] matches Type::Enum(e) ==> refusal_recorded(m0, e))
    &&& builts_empty(m)
}

/// Graphs that agree on which types parse every string agree on the
/// first variant a refusal names.
proof fn lemma_first_refused_agree(m1: Map<u64, Type>, m2: Map<u64, Type>, vs: Seq<EnumVariant>, k: int)
    requires
        forall|id: u64| irrefutable(m1, id) == irrefutable(m2, id),
    ensures
        first_refused(m1, vs, k) == first_refused(m2, vs, k),
    decreases vs.len() - k,
{
    if 0 <= k < vs.len() - 1 {
        lemma_first_refused_agree(m1, m2, vs, k + 1);
    }
}

/// Give every named type an empty trait set, and every enum its refusal
/// of `FromStr`, ahead of trait resolution.
pub fn build_commons(types: &mut BTreeMap<u64, Type>)
    ensures
        commons_started(old(types)@, final(types)@),
        refusals_recorded(final(types)@),
{
    proof {
        lemma_u64_key_order();
    }
    let ghost m0 = types@;
    let keys = sorted_keys(types);
    let mut i: usize = 0;
    while i < keys.len()
        invariant
            i <= keys@.len(),
            forall|k: u64| #[trigger] keys@.contains(k) <==> m0.contains_key(k),
            types@.dom() == m0.dom(),
            forall|t: u64| #[trigger] types@.contains_key(t) ==> types@[t].agrees_except_computed(m0[t]),
            forall|t: u64| #[trigger] keys@.take(i as int).contains(t) ==> (types@[t] matches Type::Enum(e) ==> refusal_recorded(m0, e)),
            forall|t: u64| #[trigger] types@.contains_key(t) && !m0[t].spec_is_named() ==> types@[t] == m0[t],
            forall|t: u64| #[trigger] types@.contains_key(t) ==> types@[t].spec_is_named() == m0[t].spec_is_named(),
            forall|t: u64|
                #[trigger] keys@.take(i as int).contains(t) && m0[t].spec_is_named() ==> types@[t].built_of() is Some
                    && types@[t].built_of()->0@ == Set::<TypespaceTrait>::empty(),
        decreases keys@.len() - i,
    {
        let t = keys[i];
        proof {
            assert(keys@.contains(t));
            assert forall|u: u64| #[trigger] keys@.take(i + 1).contains(u) <==> (keys@.take(i as int).contains(u) || u == t) by {
                if keys@.take(i + 1).contains(u) {
                    let n = choose|n: int| 0 <= n < i + 1 && #[trigger] keys@.take(i + 1)[n] == u;
                    if n < i {
                        assert(keys@.take(i as int)[n] == u);
                    }
                }
                if keys@.take(i as int).contains(u) {
                    let n = choose|n: int| 0 <= n < i && #[trigger] keys@.take(i as int)[n] == u;
                    assert(keys@.take(i + 1)[n] == u);
                }
                if u == t {
                    assert(keys@.take(i + 1)[i as int] == u);
                }
            }
        }
        if types.get(&t).unwrap().is_named() {
            let refusal = match types.get(&t).unwrap() {
                Type::Enum(e) => find_refusal(types, e),
                _ => None,
            };
            let ghost m = types@;
            let mut ty = types.remove(&t).unwrap();
            let ghost before = ty;
            ty.set_built(TypespaceTraitSet::empty());
            proof {
                assert(before.common_of() is Some);
            }
            let ghost mid = ty;
            let ty = match ty {
                Type::Enum(e) => Type::Enum(Enum { from_str_refusal: refusal, ..e }),
                other => other,
            };
            proof {
                assert(ty.agrees_except_computed(mid));
                if let Type::Enum(e) = before {
                    assert forall|id: u64| irrefutable(m, id) == irrefutable(m0, id) by {
                        lemma_irrefutable_agree(m0, m, id, m.dom().len());
                    }
                    assert(first_refused(m, e.variants@, 0) == first_refused(m0, e.variants@, 0)) by {
                        lemma_first_refused_agree(m, m0, e.variants@, 0);
                    }
                }
            }
            types.insert(t, ty);
        }
        i = i + 1;
    }
    proof {
        assert(keys@.take(keys@.len() as int) == keys@);
        assert forall|t: u64| #[trigger] types@.contains_key(t) && types@[t].spec_is_named() implies types@[t].built_of() is Some
            && types@[t].built_of()->0@ == Set::<TypespaceTrait>::empty() by {
            assert(keys@.contains(t));
        }
        assert forall|t: u64| #[trigger] types@.contains_key(t) implies (types@[t] matches Type::Enum(e) ==> refusal_recorded(m0, e)) by {
            assert(keys@.contains(t));
        }
        assert forall|id: u64| irrefutable(types@, id) == irrefutable(m0, id) by {
            lemma_irrefutable_agree(m0, types@, id, m0.dom().len());
        }
        assert forall|t: u64| #[trigger] types@.contains_key(t) implies (types@[t] matches Type::Enum(e) ==> refusal_recorded(types@, e)) by {
            assert(keys@.contains(t));
            if let Type::Enum(e) = types@[t] {
                lemma_first_refused_agree(types@, m0, e.variants@, 0);
            }
        }
    }
}

/// Resolve the trait set of every named type.
///
/// Required traits come first: a requirement some type cannot satisfy is
/// an error listing every such conflict, and desired resolution does not
/// run. Otherwise each named type then takes, beside the traits granted
/// it, the desired families it can support.
pub fn resolve_traits(types: &mut BTreeMap<u64, Type>, settings: &Settings) -> (r: Result<(), Error>)
    requires
        closed(old(types)@),
        anon_acyclic(old(types)@),
        containers_ok(*settings),
        natives_ok(old(types)@),
        builts_empty(old(types)@),
        refusals_recorded(old(types)@),
    ensures
        r is Ok <==> requirements_met(old(types)@, *settings),
        r is Err ==> required_resolved(old(types)@, *settings, final(types)@),
        r matches Err(e) ==> e matches Error::TraitConflicts { conflicts } && conflicts_exact(conflicts@, old(types)@, *settings),
        r is Ok ==> exists|mid: Map<u64, Type>|
            required_resolved(old(types)@, *settings, mid) && #[trigger] desired_resolved(mid, *settings, final(types)@),
{
    let result = required_resolution(types, settings);
    match result {
        Err(e) => Err(e),
        Ok(()) => {
            let ghost mid = types@;
            desired_resolution(types, settings);
            proof {
                assert(required_resolved(old(types)@, *settings, mid) && desired_resolved(mid, *settings, types@));
            }
            Ok(())
        },
    }
}

} // verus!
