//! What holds of the library as a whole: the promises finalization and
//! trait resolution keep across calls and for every graph.

use vstd::prelude::*;

use crate::build::Type;
use crate::cycles::{box_ids_callable, box_ids_fresh, cycles_broken};
use crate::desired::{consistent, desired_resolved, families_added, survives};
use crate::finalize::{checks_pass, finalize_outcome, no_cycles, type_name_of, Typespace};
use crate::graph::{anon_acyclic, closed, contains_acyclic, contains_edge, contains_path, contains_ranked, on_contains_cycle};
use crate::resolve::{commons_started, lemma_same_shape, lemma_shape_kept};
use crate::params::{by_value, lemma_param_spelled, lemma_parameter_type, lifetime_text, parameter_type};
use crate::render::{ident_text, lemma_type_ident, nameable, std_spelling, type_ident};
use crate::settings::Settings;
use crate::build::enums::EnumVariant;
use crate::variants::{payload_key, payload_unique, string_payload};
use crate::trait_resolution::{
    close_one, container_seed, granted, lemma_seed_reached, reached, req_closed, required_resolved, requirements_met,
    seed_at, spec_close,
};
use crate::traits::TypespaceTrait;

verus! {

/// When every requirement can be met, each named type has every trait
/// required of it: what settings require of all named types, what a
/// container demands of its parameters, and everything those pass on to
/// the types a realization needs.
pub proof fn law_reached_granted(m: Map<u64, Type>, s: Settings, mid: Map<u64, Type>, t: u64, x: TypespaceTrait)
    requires
        requirements_met(m, s),
        required_resolved(m, s, mid),
        m.contains_key(t),
        m[t].spec_is_named(),
        reached(m, s, t, x),
    ensures
        mid[t].built_of()->0@.contains(x),
{
    assert(granted(m, s, t).contains(x));
}

/// When every requirement can be met, each named type has every trait
/// the settings require of all named types, with its supertraits.
pub proof fn law_required_traits_granted(m: Map<u64, Type>, s: Settings, mid: Map<u64, Type>, t: u64, x: TypespaceTrait)
    requires
        requirements_met(m, s),
        required_resolved(m, s, mid),
        m.contains_key(t),
        m[t].spec_is_named(),
        spec_close(s.required_traits@).contains(x),
    ensures
        mid[t].built_of()->0@.contains(x),
{
    assert(seed_at(m, s, t, t, x));
    lemma_seed_reached(m, s, t, t, x);
    law_reached_granted(m, s, mid, t, x);
}

/// When every requirement can be met, a named type used as a container's
/// parameter has every trait the container demands of that parameter:
/// a map key is ordered, say.
pub proof fn law_container_demands_granted(
    m: Map<u64, Type>,
    s: Settings,
    mid: Map<u64, Type>,
    t: u64,
    c: u64,
    x: TypespaceTrait,
)
    requires
        requirements_met(m, s),
        required_resolved(m, s, mid),
        m.contains_key(t),
        m.contains_key(c),
        m[c].spec_is_named(),
        container_seed(m[t], s, c, x),
    ensures
        mid[c].built_of()->0@.contains(x),
{
    assert(seed_at(m, s, t, c, x));
    lemma_seed_reached(m, s, t, c, x);
    law_reached_granted(m, s, mid, c, x);
}

/// Desired resolution never takes away a trait a type already had.
pub proof fn law_desired_keeps_granted(m0: Map<u64, Type>, s: Settings, m: Map<u64, Type>, t: u64)
    requires
        desired_resolved(m0, s, m),
        m0.contains_key(t),
        m0[t].built_of() is Some,
    ensures
        m0[t].built_of()->0@.subset_of(m[t].built_of()->0@),
{
}

/// A trait in the closure of a trait in a closure is in that closure.
proof fn lemma_close_one_trans(f: TypespaceTrait, x: TypespaceTrait, z: TypespaceTrait)
    requires
        close_one(f).contains(x),
        close_one(x).contains(z),
    ensures
        close_one(f).contains(z),
{
    assert(Set::<TypespaceTrait>::empty().insert(f).contains(f));
    assert(Set::<TypespaceTrait>::empty().insert(x).contains(x));
    if z != x {
        assert(Set::<TypespaceTrait>::empty().insert(x).contains(TypespaceTrait::Ord) || Set::<TypespaceTrait>::empty().insert(
            x,
        ).contains(TypespaceTrait::Eq) || Set::<TypespaceTrait>::empty().insert(x).contains(TypespaceTrait::PartialOrd));
    }
    if x != f {
        assert(Set::<TypespaceTrait>::empty().insert(f).contains(TypespaceTrait::Ord) || Set::<TypespaceTrait>::empty().insert(
            f,
        ).contains(TypespaceTrait::Eq) || Set::<TypespaceTrait>::empty().insert(f).contains(TypespaceTrait::PartialOrd));
    }
}

/// What desired resolution adds to a type comes with its supertraits: a
/// derive it grants always compiles.
pub proof fn law_desired_additions_closed(m0: Map<u64, Type>, s: Settings, t: u64, x: TypespaceTrait, z: TypespaceTrait)
    requires
        families_added(m0, s, t).contains(x),
        close_one(x).contains(z),
    ensures
        families_added(m0, s, t).contains(z),
{
    let f = choose|f: TypespaceTrait|
        #[trigger] s.desired_traits@.contains(f) && close_one(f).contains(x) && forall|w: TypespaceTrait|
            #[trigger] close_one(f).contains(w) ==> survives(m0, s, spec_close(s.desired_traits@), t, w);
    lemma_close_one_trans(f, x, z);
}

/// Desired resolution grants each type every desired family that some
/// consistent assignment gives it whole: it keeps as much as can be kept.
pub proof fn law_desired_greatest(m0: Map<u64, Type>, s: Settings, h: Set<(u64, TypespaceTrait)>, t: u64, f: TypespaceTrait)
    requires
        consistent(m0, s, spec_close(s.desired_traits@), h),
        s.desired_traits@.contains(f),
        forall|z: TypespaceTrait| #[trigger] close_one(f).contains(z) ==> h.contains((t, z)),
    ensures
        close_one(f).subset_of(families_added(m0, s, t)),
{
    assert forall|z: TypespaceTrait| #[trigger] close_one(f).contains(z) implies survives(m0, s, spec_close(s.desired_traits@), t, z) by {
        assert(consistent(m0, s, spec_close(s.desired_traits@), h) && h.contains((t, z)));
    }
    assert forall|x: TypespaceTrait| close_one(f).contains(x) implies #[trigger] families_added(m0, s, t).contains(x) by {
        assert(s.desired_traits@.contains(f) && close_one(f).contains(x));
    }
}

/// Desired resolution adds a trait to a type only when the type can
/// realize it given what survives at the types it is built from.
pub proof fn law_desired_sound(m0: Map<u64, Type>, s: Settings, t: u64, x: TypespaceTrait)
    requires
        families_added(m0, s, t).contains(x),
        !crate::desired::granted_to(m0, t).contains(x),
    ensures
        exists|h: Set<(u64, TypespaceTrait)>|
            consistent(m0, s, spec_close(s.desired_traits@), h) && h.contains((t, x)) && crate::desired::provides_at(
                m0[t],
                s,
                x,
                h,
            ),
{
    let f = choose|f: TypespaceTrait|
        #[trigger] s.desired_traits@.contains(f) && close_one(f).contains(x) && forall|w: TypespaceTrait|
            #[trigger] close_one(f).contains(w) ==> survives(m0, s, spec_close(s.desired_traits@), t, w);
    assert(survives(m0, s, spec_close(s.desired_traits@), t, x));
    let h = choose|h: Set<(u64, TypespaceTrait)>| #[trigger] consistent(m0, s, spec_close(s.desired_traits@), h) && h.contains((t, x));
    assert(crate::trait_resolution::spec_dependents(x)[0] == x);
    assert(crate::trait_resolution::spec_dependents(x).contains(x));
}

/// Whether requirements can be met does not depend on the traits merely
/// desired: a desired trait that cannot be realized is dropped, never
/// reported.
pub proof fn law_desired_never_fails(m: Map<u64, Type>, s1: Settings, s2: Settings)
    requires
        s2 == (Settings { desired_traits: s2.desired_traits, ..s1 }),
    ensures
        requirements_met(m, s1) == requirements_met(m, s2),
        checks_pass(m, s1) == checks_pass(m, s2),
{
    assert forall|set: Set<(u64, TypespaceTrait)>| req_closed(m, s1, set) == req_closed(m, s2, set) by {
        assert forall|t: u64, c: u64, y: TypespaceTrait| seed_at(m, s1, t, c, y) == seed_at(m, s2, t, c, y) by {}
        assert forall|t: u64, x: TypespaceTrait, c: u64, y: TypespaceTrait|
            crate::trait_resolution::req_step(m, s1, t, x, c, y) == crate::trait_resolution::req_step(m, s2, t, x, c, y) by {}
    }
    assert forall|t: u64, x: TypespaceTrait| reached(m, s1, t, x) == reached(m, s2, t, x) by {
        if reached(m, s1, t, x) {
            assert forall|set: Set<(u64, TypespaceTrait)>| #[trigger] req_closed(m, s2, set) implies set.contains((t, x)) by {
                assert(req_closed(m, s1, set));
            }
        }
        if reached(m, s2, t, x) {
            assert forall|set: Set<(u64, TypespaceTrait)>| #[trigger] req_closed(m, s1, set) implies set.contains((t, x)) by {
                assert(req_closed(m, s2, set));
            }
        }
    }
    assert(requirements_met(m, s1) == requirements_met(m, s2)) by {
        if requirements_met(m, s1) {
            assert forall|t: u64, x: TypespaceTrait| #[trigger] reached(m, s2, t, x) implies !crate::trait_resolution::local_conflict(
                m,
                s2,
                t,
                x,
            ) by {
                assert(reached(m, s1, t, x));
            }
        }
        if requirements_met(m, s2) {
            assert forall|t: u64, x: TypespaceTrait| #[trigger] reached(m, s1, t, x) implies !crate::trait_resolution::local_conflict(
                m,
                s1,
                t,
                x,
            ) by {
                assert(reached(m, s2, t, x));
            }
        }
    }
}

/// Along a containment path a ranking falls by at least one per edge.
proof fn lemma_contains_ranked_path(m: Map<u64, Type>, rank: Map<u64, nat>, p: Seq<u64>)
    requires
        contains_ranked(m, rank),
        contains_path(m, p),
        p.len() >= 2,
    ensures
        rank.contains_key(p[0]) && rank.contains_key(p.last()) && rank[p.last()] + p.len() - 1 <= rank[p[0]],
    decreases p.len(),
{
    assert(contains_edge(m, p[0], p[1]));
    if p.len() > 2 {
        let q = p.subrange(1, p.len() as int);
        assert forall|i: int| 0 <= i < q.len() - 1 implies contains_edge(m, #[trigger] q[i], q[i + 1]) by {
            assert(q[i] == p[i + 1]);
            assert(q[i + 1] == p[i + 2]);
        }
        lemma_contains_ranked_path(m, rank, q);
        assert(q.last() == p.last());
    }
}

/// On a graph without containment cycles, [`no_cycles`] is a proper
/// `make_box_id`: finalization never needs a box there.
pub proof fn law_no_cycles_on_acyclic(m: Map<u64, Type>)
    requires
        contains_acyclic(m),
    ensures
        box_ids_fresh(no_cycles, m),
        box_ids_callable(no_cycles, m),
{
    let rank = choose|rank: Map<u64, nat>| contains_ranked(m, rank);
    assert forall|c: u64| !on_contains_cycle(m, c) by {
        if on_contains_cycle(m, c) {
            let p = choose|p: Seq<u64>| contains_path(m, p) && p.len() >= 2 && p[0] == c && p.last() == c;
            lemma_contains_ranked_path(m, rank, p);
        }
    }
}

/// A finalized typespace holds every inserted type, under the same name
/// for a named one; it refers only to types it holds; no type contains
/// itself; and no cycle runs through anonymous types only.
pub proof fn law_finalized_graph<F: Fn(&u64) -> u64>(
    m: Map<u64, Type>,
    s: Settings,
    f: F,
    m1: Map<u64, Type>,
    m2: Map<u64, Type>,
    ts: Typespace,
)
    requires
        cycles_broken(f, m, m1),
        commons_started(m1, m2),
        finalize_outcome(m2, s, Ok(ts)),
    ensures
        m.dom().subset_of(ts.types_of().dom()),
        closed(ts.types_of()),
        contains_acyclic(ts.types_of()),
        anon_acyclic(ts.types_of()),
        forall|t: u64| #[trigger] m.contains_key(t) && m[t].spec_is_named() ==> ts.types_of()[t].spec_is_named()
            && type_name_of(ts.types_of()[t]) == type_name_of(m[t]),
{
    let mf = ts.types_of();
    let mid = choose|mid: Map<u64, Type>| required_resolved(m2, s, mid) && #[trigger] desired_resolved(mid, s, mf);
    assert(mf.dom() == m1.dom());
    assert forall|t: u64| #[trigger] mf.contains_key(t) implies mf[t].agrees_except_computed(m1[t]) by {
        assert(mf[t].agrees_except_built(mid[t]));
        assert(mid[t].agrees_except_built(m2[t]));
        assert(m2[t].agrees_except_computed(m1[t]));
    }
    lemma_same_shape(m1, mf);
    lemma_same_shape(m2, mf);
    assert forall|t: u64| #[trigger] m.contains_key(t) && m[t].spec_is_named() implies mf[t].spec_is_named() && type_name_of(mf[t])
        == type_name_of(m[t]) by {
        assert(crate::cycles::rewired(m, m1, t));
        lemma_shape_kept(mf[t], m1[t]);
        assert(mf[t].without_computed() == m1[t].without_computed());
        assert(m1[t].agrees_except_ids(m[t]));
        match (mf[t], m1[t], m[t]) {
            (Type::Enum(a), Type::Enum(b), Type::Enum(c)) => {},
            (Type::Struct(a), Type::Struct(b), Type::Struct(c)) => {},
            (Type::TupleStruct(a), Type::TupleStruct(b), Type::TupleStruct(c)) => {},
            (Type::NewtypeStruct(a), Type::NewtypeStruct(b), Type::NewtypeStruct(c)) => {},
            (Type::TypeAlias(a), Type::TypeAlias(b), Type::TypeAlias(c)) => {},
            _ => {},
        }
    }
}

/// A function parameter passes what is cheap to own by value and borrows
/// the rest: a primitive, the unit type and an enum of unit variants are
/// spelled as where they are used; a string is a `&str`; an option holds
/// the parameter form of its payload; any other type but a tuple is its
/// usual text behind a reference carrying the lifetime.
pub proof fn law_parameter_type(m: Map<u64, Type>, s: Settings, id: u64, scope: Option<Seq<char>>, lifetime: Option<Seq<char>>)
    requires
        nameable(m, s, id, scope, false),
    ensures
        by_value(m[id]) ==> parameter_type(m, s, id, scope, lifetime) == type_ident(m, s, id, scope, false),
        m[id] is String ==> parameter_type(m, s, id, scope, lifetime) == "&"@ + lifetime_text(lifetime) + "str"@,
        m[id] matches Type::Option(inner) ==> nameable(m, s, inner, scope, false) && parameter_type(m, s, id, scope, lifetime)
            == std_spelling(s.std, "::std::option::Option"@, "Option"@) + "<"@ + parameter_type(m, s, inner, scope, lifetime)
            + ">"@,
        !by_value(m[id]) && !(m[id] is String) && !(m[id] is Option) && !(m[id] is Tuple) ==> parameter_type(
            m,
            s,
            id,
            scope,
            lifetime,
        ) == "&"@ + lifetime_text(lifetime) + type_ident(m, s, id, scope, false),
{
    let fuel = choose|fuel: nat| #[trigger] ident_text(m, s, id, scope, false, fuel) is Some;
    lemma_param_spelled(m, s, id, scope, lifetime, fuel);
    lemma_parameter_type(m, s, id, scope, lifetime, fuel);
    lemma_type_ident(m, s, id, scope, false, fuel);
    if let Type::Option(inner) = m[id] {
        let f = (fuel - 1) as nat;
        lemma_type_ident(m, s, inner, scope, false, f);
        lemma_param_spelled(m, s, inner, scope, lifetime, f);
        lemma_parameter_type(m, s, inner, scope, lifetime, f);
    }
}

/// Two variants of an enum that both get a `From` impl convert from
/// different payloads, so the generated impls never overlap.
pub proof fn law_from_impls_distinct(m: Map<u64, Type>, s: Settings, vs: Seq<EnumVariant>, i: int, j: int)
    requires
        0 <= i < vs.len(),
        0 <= j < vs.len(),
        i != j,
        payload_unique(m, s, vs, i) && !string_payload(m, vs[i]),
        payload_unique(m, s, vs, j) && !string_payload(m, vs[j]),
    ensures
        payload_key(m, s, vs[i]) is Some,
        payload_key(m, s, vs[i]) != payload_key(m, s, vs[j]),
{
}

} // verus!
