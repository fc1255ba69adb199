//! Desired trait resolution: give each named type the desired traits it
//! can support.
//!
//! Each type starts out assumed to have every desired trait (with the
//! supertraits their closure adds). A type that cannot provide a trait,
//! even with everything it is built from assumed capable, loses it; a
//! loss travels to the types referring to the loser, which lose the trait
//! in turn when they can no longer provide it. Losing a trait also loses
//! the traits resting on it. Traits required resolution granted a type
//! are never lost. What survives is the greatest assignment in which
//! every surviving trait is provided.

use std::collections::BTreeMap;

use vstd::prelude::*;

use crate::build::Type;
use crate::graph::{closed, lemma_u64_key_order, sorted_keys};
use crate::settings::{ContainerType, Settings};
use crate::trait_resolution::{
    close_one, close_supertraits, display_like, feas_impossible, feas_targets, feasibility, natives_ok,
    spec_close, spec_dependents, strip_dependents, Feasibility, Pair, lemma_feas_targets_children, ids_of,
};
use crate::traits::{TraitProvision, TypespaceTrait, TypespaceTraitSet};

verus! {

broadcast use vstd::std_specs::btree::group_btree_axioms, vstd::laws_cmp::group_laws_cmp;

/// What a configured container provides for `x`, given whether every
/// parameter has it.
pub open spec fn container_provides_spec(decl: ContainerType, x: TypespaceTrait, parameters: bool) -> bool {
    match decl.provision_of(x) {
        TraitProvision::Always => true,
        TraitProvision::IfParameters => parameters,
        _ => false,
    }
}

/// Whether a type of shape `ty` provides `x` when the types it is built
/// from have what `h` says they have.
///
/// A named type answers from the feasibility table: an impossible trait is
/// never provided, and otherwise every type its realization needs must
/// have it. A native provides only what it declares: unconditionally, or
/// when all its parameters have it. Containers answer with the rules
/// required resolution applies: a configured container from its
/// declaration, the fixed ones by forwarding to their contents (none has
/// `Display` or `FromStr`, and an option has `Default` whatever it holds).
pub open spec fn provides_at(ty: Type, s: Settings, x: TypespaceTrait, h: Set<Pair>) -> bool {
    match ty {
        Type::Native(n) => match n.provision_of(x) {
            TraitProvision::Always => true,
            TraitProvision::IfParameters => forall|c: u64| #[trigger] n.parameters@.contains(c) ==> h.contains((c, x)),
            _ => false,
        },
        Type::Option(e) => !display_like(x) && (x == TypespaceTrait::Default || h.contains((e, x))),
        Type::Box(e) => !display_like(x) && h.contains((e, x)),
        Type::Array(e, _) => !display_like(x) && h.contains((e, x)),
        Type::Tuple(items) => !display_like(x) && forall|c: u64| #[trigger] items@.contains(c) ==> h.contains((c, x)),
        Type::Vec(e) => container_provides_spec(s.vec_type, x, h.contains((e, x))),
        Type::SetOf(e) => container_provides_spec(s.set_type, x, h.contains((e, x))),
        Type::MapOf(k, v) => container_provides_spec(s.map_type, x, h.contains((k, x)) && h.contains((v, x))),
        Type::Integer(_) | Type::Boolean | Type::String => true,
        Type::Unit | Type::Never => !display_like(x),
        Type::Float(_) => !(x == TypespaceTrait::Ord || x == TypespaceTrait::Eq || x == TypespaceTrait::Hash),
        Type::JsonValue => !(x == TypespaceTrait::Ord || x == TypespaceTrait::PartialOrd),
        _ => !feas_impossible(ty, x, s.typify_compat) && forall|c: u64|
            #[trigger] feas_targets(ty, x, s.typify_compat).contains(c) ==> h.contains((c, x)),
    }
}

/// The traits required resolution granted type `t`: those recorded for a
/// named type, none for any other.
pub open spec fn granted_to(m: Map<u64, Type>, t: u64) -> Set<TypespaceTrait> {
    if m.contains_key(t) && m[t].built_of() is Some {
        m[t].built_of()->0@
    } else {
        Set::empty()
    }
}

/// Every type with every trait of `d`.
pub open spec fn everything(m: Map<u64, Type>, d: Set<TypespaceTrait>) -> Set<Pair> {
    Set::new(|p: Pair| m.contains_key(p.0) && d.contains(p.1))
}

/// An assignment `h` of desired traits `d` to the types of `m` is
/// consistent: each surviving trait not granted its type is provided
/// there, and so is each trait it rests on, which survives too.
pub open spec fn consistent(m: Map<u64, Type>, s: Settings, d: Set<TypespaceTrait>, h: Set<Pair>) -> bool {
    &&& h.subset_of(everything(m, d))
    &&& forall|t: u64, x: TypespaceTrait, y: TypespaceTrait|
        #![trigger h.contains((t, x)), spec_dependents(y).contains(x)]
        h.contains((t, x)) && !granted_to(m, t).contains(x) && spec_dependents(y).contains(x) ==> h.contains((t, y))
            && provides_at(m[t], s, y, h)
}

/// Trait `x` survives at type `t`: some consistent assignment gives it.
pub open spec fn survives(m: Map<u64, Type>, s: Settings, d: Set<TypespaceTrait>, t: u64, x: TypespaceTrait) -> bool {
    exists|h: Set<Pair>| #[trigger] consistent(m, s, d, h) && h.contains((t, x))
}

/// What desired resolution adds to named type `t`: each family (a desired
/// trait with the supertraits it rests on) that survives whole.
pub open spec fn families_added(m: Map<u64, Type>, s: Settings, t: u64) -> Set<TypespaceTrait> {
    Set::new(
        |x: TypespaceTrait|
            exists|f: TypespaceTrait|
                #[trigger] s.desired_traits@.contains(f) && close_one(f).contains(x) && forall|z: TypespaceTrait|
                    #[trigger] close_one(f).contains(z) ==> survives(m, s, spec_close(s.desired_traits@), t, z),
    )
}

/// `y` rests on `x`, which rests on `z`: then `y` rests on `z`.
pub proof fn lemma_dependents_trans(x: TypespaceTrait, y: TypespaceTrait, z: TypespaceTrait)
    requires
        spec_dependents(z).contains(x),
        spec_dependents(x).contains(y),
    ensures
        spec_dependents(z).contains(y),
{
    assert(spec_dependents(x).contains(y));
    if x != y {
        assert(y == TypespaceTrait::Ord || y == TypespaceTrait::Eq || y == TypespaceTrait::PartialOrd);
    }
    if z == TypespaceTrait::PartialEq {
        assert(spec_dependents(z)[1] == TypespaceTrait::Eq);
        assert(spec_dependents(z)[2] == TypespaceTrait::PartialOrd);
        assert(spec_dependents(z)[3] == TypespaceTrait::Ord);
        assert(spec_dependents(z)[0] == TypespaceTrait::PartialEq);
    } else if z == TypespaceTrait::Eq || z == TypespaceTrait::PartialOrd {
        assert(spec_dependents(z)[1] == TypespaceTrait::Ord);
        assert(spec_dependents(z)[0] == z);
    }
}

/// Whether type `t` provides `y` depends only on what its children have of
/// `y`.
pub proof fn lemma_provides_local(m: Map<u64, Type>, s: Settings, t: u64, y: TypespaceTrait, h1: Set<Pair>, h2: Set<Pair>)
    requires
        m.contains_key(t),
        forall|c: u64| #[trigger] m[t].spec_children().contains(c) ==> (h1.contains((c, y)) == h2.contains((c, y))),
    ensures
        provides_at(m[t], s, y, h1) == provides_at(m[t], s, y, h2),
{
    let ty = m[t];
    match ty {
        Type::Option(e) | Type::Box(e) | Type::Array(e, _) | Type::Vec(e) | Type::SetOf(e) => {
            assert(ty.spec_children()[0] == e);
            assert(m[t].spec_children().contains(e));
        },
        Type::MapOf(k, v) => {
            assert(ty.spec_children()[0] == k);
            assert(ty.spec_children()[1] == v);
            assert(m[t].spec_children().contains(k));
            assert(m[t].spec_children().contains(v));
        },
        Type::Native(n) => {
            assert forall|c: u64| #[trigger] n.parameters@.contains(c) implies h1.contains((c, y)) == h2.contains((c, y)) by {
                assert(m[t].spec_children().contains(c));
            }
        },
        Type::Tuple(items) => {
            assert forall|c: u64| #[trigger] items@.contains(c) implies h1.contains((c, y)) == h2.contains((c, y)) by {
                assert(m[t].spec_children().contains(c));
            }
        },
        Type::Integer(_) | Type::Boolean | Type::String | Type::Unit | Type::Never | Type::Float(_) | Type::JsonValue => {},
        _ => {
            assert forall|c: u64| #[trigger] feas_targets(ty, y, s.typify_compat).contains(c) implies h1.contains((c, y)) == h2.contains((c, y)) by {
                lemma_feas_targets_children(ty, y, s.typify_compat, c);
                assert(m[t].spec_children().contains(c));
            }
        },
    }
}

/// Having more makes a type provide more.
pub proof fn lemma_provides_mono(ty: Type, s: Settings, y: TypespaceTrait, h1: Set<Pair>, h2: Set<Pair>)
    requires
        h1.subset_of(h2),
        provides_at(ty, s, y, h1),
    ensures
        provides_at(ty, s, y, h2),
{
}

/// The pairs a map from type IDs to trait sets holds.
pub open spec fn hset(hm: Map<u64, TypespaceTraitSet>) -> Set<Pair> {
    Set::new(|p: Pair| hm.contains_key(p.0) && hm[p.0]@.contains(p.1))
}

/// Whether `c` has `x` according to `has`.
fn child_has(has: &BTreeMap<u64, TypespaceTraitSet>, c: u64, x: TypespaceTrait) -> (b: bool)
    ensures
        b == hset(has@).contains((c, x)),
{
    proof {
        lemma_u64_key_order();
    }
    match has.get(&c) {
        Some(traits) => traits.contains(&x),
        None => false,
    }
}

/// Whether every one of `ids` has `x` according to `has`.
fn all_have(has: &BTreeMap<u64, TypespaceTraitSet>, ids: &Vec<u64>, x: TypespaceTrait) -> (b: bool)
    ensures
        b == forall|c: u64| #[trigger] ids@.contains(c) ==> hset(has@).contains((c, x)),
{
    let mut i: usize = 0;
    while i < ids.len()
        invariant
            i <= ids@.len(),
            forall|k: int| 0 <= k < i ==> hset(has@).contains((#[trigger] ids@[k], x)),
        decreases ids@.len() - i,
    {
        if !child_has(has, ids[i], x) {
            proof {
                assert(ids@.contains(ids@[i as int]));
            }
            return false;
        }
        i = i + 1;
    }
    proof {
        assert forall|c: u64| #[trigger] ids@.contains(c) implies hset(has@).contains((c, x)) by {
            let k = choose|k: int| 0 <= k < ids@.len() && ids@[k] == c;
        }
    }
    true
}

/// Whether every contained child in `kids` has `x` according to `has`.
fn all_kids_have(has: &BTreeMap<u64, TypespaceTraitSet>, kids: &Vec<crate::build::ContainedChild>, x: TypespaceTrait) -> (b: bool)
    ensures
        b == forall|c: u64| #[trigger] ids_of(kids@).contains(c) ==> hset(has@).contains((c, x)),
{
    let mut i: usize = 0;
    while i < kids.len()
        invariant
            i <= kids@.len(),
            forall|k: int| 0 <= k < i ==> hset(has@).contains((#[trigger] kids@[k].id, x)),
        decreases kids@.len() - i,
    {
        if !child_has(has, kids[i].id, x) {
            proof {
                assert(ids_of(kids@)[i as int] == kids@[i as int].id);
                assert(ids_of(kids@).contains(kids@[i as int].id));
            }
            return false;
        }
        i = i + 1;
    }
    proof {
        assert forall|c: u64| #[trigger] ids_of(kids@).contains(c) implies hset(has@).contains((c, x)) by {
            let k = choose|k: int| 0 <= k < ids_of(kids@).len() && ids_of(kids@)[k] == c;
            assert(kids@[k].id == c);
        }
    }
    true
}

/// What a configured container provides for `x`.
fn container_provides(decl: &ContainerType, x: TypespaceTrait, parameters: bool) -> (b: bool)
    ensures
        b == container_provides_spec(*decl, x, parameters),
{
    match decl.provision(x) {
        TraitProvision::Always => true,
        TraitProvision::IfParameters => parameters,
        _ => false,
    }
}

/// Whether `ty` provides `x`, given what `has` says the types it is
/// built from have.
pub fn provides(ty: &Type, x: TypespaceTrait, has: &BTreeMap<u64, TypespaceTraitSet>, settings: &Settings) -> (b: bool)
    ensures
        b == provides_at(*ty, *settings, x, hset(has@)),
{
    let supported = !(x == TypespaceTrait::Display || x == TypespaceTrait::FromStr);
    match ty {
        Type::Native(n) => match n.disposition(x) {
            TraitProvision::Always => true,
            TraitProvision::IfParameters => all_have(has, &n.parameters, x),
            _ => false,
        },
        Type::Option(e) => supported && (x == TypespaceTrait::Default || child_has(has, *e, x)),
        Type::Box(e) => supported && child_has(has, *e, x),
        Type::Array(e, _) => supported && child_has(has, *e, x),
        Type::Tuple(items) => supported && all_have(has, items, x),
        Type::Vec(e) => container_provides(&settings.vec_type, x, child_has(has, *e, x)),
        Type::SetOf(e) => container_provides(&settings.set_type, x, child_has(has, *e, x)),
        Type::MapOf(k, v) => {
            let both = child_has(has, *k, x) && child_has(has, *v, x);
            container_provides(&settings.map_type, x, both)
        },
        Type::Integer(_) | Type::Boolean | Type::String => true,
        Type::Unit | Type::Never => supported,
        Type::Float(_) => !(x == TypespaceTrait::Ord || x == TypespaceTrait::Eq || x == TypespaceTrait::Hash),
        Type::JsonValue => !(x == TypespaceTrait::Ord || x == TypespaceTrait::PartialOrd),
        _ => {
            match feasibility(ty, x, settings) {
                Feasibility::Impossible => false,
                Feasibility::ManuallyRealizable(obligations) => all_kids_have(has, &obligations, x),
                _ => {
                    let kids = ty.contained_children();
                    all_have(has, &kids, x)
                },
            }
        },
    }
}

/// Take `x` and the traits resting on it from `loser`, except those in
/// `granted`; queue each one that was still there.
fn lose(
    has: &mut BTreeMap<u64, TypespaceTraitSet>,
    queue: &mut Vec<Pair>,
    loser: u64,
    x: TypespaceTrait,
    granted: &TypespaceTraitSet,
)
    requires
        old(has)@.contains_key(loser),
    ensures
        final(has)@.dom() == old(has)@.dom(),
        hset(final(has)@) == hset(old(has)@).difference(
            Set::new(|p: Pair| p.0 == loser && spec_dependents(x).contains(p.1) && !granted@.contains(p.1)),
        ),
        final(queue)@.len() >= old(queue)@.len(),
        final(queue)@.subrange(0, old(queue)@.len() as int) == old(queue)@,
        forall|i: int| old(queue)@.len() <= i < final(queue)@.len() ==> (#[trigger] final(queue)@[i]).0 == loser
            && hset(old(has)@).contains(final(queue)@[i]) && !hset(final(has)@).contains(final(queue)@[i]),
        forall|p: Pair| hset(old(has)@).contains(p) && !hset(final(has)@).contains(p) ==> exists|i: int|
            old(queue)@.len() <= i < final(queue)@.len() && #[trigger] final(queue)@[i] == p,
{
    proof {
        lemma_u64_key_order();
    }
    let ghost h0 = has@;
    let ghost q0 = queue@;
    let ghost gone = Set::new(|p: Pair| p.0 == loser && spec_dependents(x).contains(p.1) && !granted@.contains(p.1));
    let mut traits = has.remove(&loser).unwrap();
    let ghost t0 = traits@;
    let lost = strip_dependents(x);
    let mut i: usize = 0;
    while i < lost.len()
        invariant
            lost@ == spec_dependents(x),
            i <= lost@.len(),
            h0.contains_key(loser),
            t0 == h0[loser]@,
            has@ == h0.remove(loser),
            traits@ == t0.difference(Set::new(|z: TypespaceTrait| lost@.take(i as int).contains(z) && !granted@.contains(z))),
            queue@.len() >= q0.len(),
            queue@.subrange(0, q0.len() as int) == q0,
            forall|k: int| q0.len() <= k < queue@.len() ==> (#[trigger] queue@[k]).0 == loser && t0.contains(queue@[k].1)
                && !traits@.contains(queue@[k].1),
            forall|z: TypespaceTrait| t0.contains(z) && !traits@.contains(z) ==> exists|k: int|
                q0.len() <= k < queue@.len() && #[trigger] queue@[k] == (loser, z),
        decreases lost@.len() - i,
    {
        let z = lost[i];
        let ghost tr0 = traits@;
        let ghost qb = queue@;
        proof {
            assert forall|w: TypespaceTrait| #[trigger] lost@.take(i + 1).contains(w) <==> (lost@.take(i as int).contains(w) || w == z) by {
                if lost@.take(i + 1).contains(w) {
                    let k = choose|k: int| 0 <= k < i + 1 && #[trigger] lost@.take(i + 1)[k] == w;
                    if k < i {
                        assert(lost@.take(i as int)[k] == w);
                    }
                }
                if lost@.take(i as int).contains(w) {
                    let k = choose|k: int| 0 <= k < i && #[trigger] lost@.take(i as int)[k] == w;
                    assert(lost@.take(i + 1)[k] == w);
                }
                if w == z {
                    assert(lost@.take(i + 1)[i as int] == w);
                }
            }
        }
        if !granted.contains(&z) {
            if traits.remove(z) {
                queue.push((loser, z));
                proof {
                    assert(queue@.subrange(0, q0.len() as int) == qb.subrange(0, q0.len() as int));
                    assert forall|k: int| q0.len() <= k < queue@.len() implies (#[trigger] queue@[k]).0 == loser && t0.contains(queue@[k].1)
                        && !traits@.contains(queue@[k].1) by {
                        if k < qb.len() {
                            assert(queue@[k] == qb[k]);
                        }
                    }
                    assert forall|w: TypespaceTrait| t0.contains(w) && !traits@.contains(w) implies exists|k: int|
                        q0.len() <= k < queue@.len() && #[trigger] queue@[k] == (loser, w) by {
                        if w == z {
                            assert(queue@[qb.len() as int] == (loser, w));
                        } else {
                            let k = choose|k: int| q0.len() <= k < qb.len() && #[trigger] qb[k] == (loser, w);
                            assert(queue@[k] == qb[k]);
                        }
                    }
                }
            }
        }
        proof {
            assert(traits@ =~= t0.difference(Set::new(|w: TypespaceTrait| lost@.take(i + 1).contains(w) && !granted@.contains(w))));
        }
        i = i + 1;
    }
    let ghost tf = traits@;
    has.insert(loser, traits);
    proof {
        assert(lost@.take(lost@.len() as int) == lost@);
        assert(hset(has@) =~= hset(h0).difference(gone)) by {
            assert forall|p: Pair| hset(has@).contains(p) <==> hset(h0).difference(gone).contains(p) by {
                if p.0 == loser {
                    assert(spec_dependents(x).contains(p.1) == lost@.contains(p.1));
                }
            }
        }
        assert forall|i: int| q0.len() <= i < queue@.len() implies (#[trigger] queue@[i]).0 == loser
            && hset(h0).contains(queue@[i]) && !hset(has@).contains(queue@[i]) by {
            assert(has@[loser] == traits);
        }
        assert forall|p: Pair| hset(h0).contains(p) && !hset(has@).contains(p) implies exists|i: int|
            q0.len() <= i < queue@.len() && #[trigger] queue@[i] == p by {
            assert(p.0 == loser);
            assert(t0.contains(p.1) && !tf.contains(p.1));
        }
    }
}

/// Type `t` has lost, under `h`, everything resting on `y` that was not
/// granted it.
pub open spec fn stripped(m: Map<u64, Type>, t: u64, y: TypespaceTrait, h: Set<Pair>) -> bool {
    forall|z: TypespaceTrait| #[trigger] spec_dependents(y).contains(z) && !granted_to(m, t).contains(z) ==> !h.contains((t, z))
}

/// The pairs that losing `y` at `t` takes, sparing what `g` grants.
pub open spec fn gone(t: u64, y: TypespaceTrait, g: Set<TypespaceTrait>) -> Set<Pair> {
    Set::new(|p: Pair| p.0 == t && spec_dependents(y).contains(p.1) && !g.contains(p.1))
}

/// The invariants of desired resolution that hold between steps: `h`
/// assigns only desired traits to types of `m`, keeps every granted one,
/// holds every consistent assignment, and is closed under resting.
pub open spec fn desired_core(m: Map<u64, Type>, s: Settings, d: Set<TypespaceTrait>, h: Set<Pair>) -> bool {
    &&& h.subset_of(everything(m, d))
    &&& forall|t: u64, x: TypespaceTrait| m.contains_key(t) && d.contains(x) && #[trigger] granted_to(m, t).contains(x) ==> h.contains((t, x))
    &&& forall|h2: Set<Pair>| #[trigger] consistent(m, s, d, h2) ==> h2.subset_of(h)
    &&& forall|t: u64, x: TypespaceTrait, y: TypespaceTrait|
        #![trigger h.contains((t, x)), spec_dependents(y).contains(x)]
        h.contains((t, x)) && !granted_to(m, t).contains(x) && spec_dependents(y).contains(x) ==> h.contains((t, y))
}

/// A loss of `y` at a child of `t` is still queued.
pub open spec fn pending_for(m: Map<u64, Type>, q: Seq<Pair>, head: int, t: u64, y: TypespaceTrait) -> bool {
    exists|i: int| head <= i < q.len() && (#[trigger] q[i]).1 == y && m[t].spec_children().contains(q[i].0)
}

/// Losing `y` at `t`, which cannot provide it, keeps the core invariants
/// and strips `t` of `y`.
proof fn lemma_lose_keeps(m: Map<u64, Type>, s: Settings, d: Set<TypespaceTrait>, h: Set<Pair>, t: u64, y: TypespaceTrait)
    requires
        desired_core(m, s, d, h),
        m.contains_key(t),
        !provides_at(m[t], s, y, h),
    ensures
        desired_core(m, s, d, h.difference(gone(t, y, granted_to(m, t)))),
        stripped(m, t, y, h.difference(gone(t, y, granted_to(m, t)))),
{
    let g = granted_to(m, t);
    let h2 = h.difference(gone(t, y, g));
    assert forall|h3: Set<Pair>| #[trigger] consistent(m, s, d, h3) implies h3.subset_of(h2) by {
        assert(h3.subset_of(h));
        assert forall|p: Pair| h3.contains(p) implies h2.contains(p) by {
            if gone(t, y, g).contains(p) {
                assert(h3.contains((t, p.1)) && !granted_to(m, t).contains(p.1) && spec_dependents(y).contains(p.1));
                assert(provides_at(m[t], s, y, h3));
                lemma_provides_mono(m[t], s, y, h3, h);
            }
        }
    }
    assert forall|t2: u64, x: TypespaceTrait, y2: TypespaceTrait|
        #![trigger h2.contains((t2, x)), spec_dependents(y2).contains(x)]
        h2.contains((t2, x)) && !granted_to(m, t2).contains(x) && spec_dependents(y2).contains(x) implies h2.contains((t2, y2)) by {
        assert(h.contains((t2, y2)));
        if gone(t, y, g).contains((t2, y2)) {
            lemma_dependents_trans(y2, x, y);
            assert(gone(t, y, g).contains((t2, x)));
        }
    }
}

/// The map from each type to the types referring to it.
pub open spec fn referrers_ok(m: Map<u64, Type>, refs: Map<u64, Vec<u64>>) -> bool {
    forall|c: u64, t: u64| #![trigger refs[c]@.contains(t)] #![trigger m[t].spec_children().contains(c)] (refs.contains_key(c) && refs[c]@.contains(t)) <==> (m.contains_key(t) && m[t].spec_children().contains(c))
}

/// `refs` records the referrers among `done` of every type, and `t` as a
/// referrer of each of `kids`.
pub open spec fn refs_partial(m: Map<u64, Type>, refs: Map<u64, Vec<u64>>, done: Seq<u64>, t: u64, kids: Seq<u64>) -> bool {
    forall|c: u64, t2: u64| #![trigger refs[c]@.contains(t2)] #![trigger m[t2].spec_children().contains(c), done.contains(t2)]
        (refs.contains_key(c) && refs[c]@.contains(t2)) <==> ((done.contains(t2) && m[t2].spec_children().contains(c)) || (t2 == t
            && kids.contains(c)))
}

/// Record `t` as a referrer of `c`.
fn add_referrer(refs: &mut BTreeMap<u64, Vec<u64>>, c: u64, t: u64)
    ensures
        final(refs)@.dom() == old(refs)@.dom().insert(c),
        forall|c2: u64, t2: u64| #![trigger final(refs)@[c2]@.contains(t2)] (final(refs)@.contains_key(c2) && final(refs)@[c2]@.contains(t2)) <==> ((old(refs)@.contains_key(c2)
            && old(refs)@[c2]@.contains(t2)) || (c2 == c && t2 == t)),
{
    proof {
        lemma_u64_key_order();
    }
    let ghost r0 = refs@;
    match refs.remove(&c) {
        Some(mut v) => {
            let ghost v0 = v@;
            v.push(t);
            refs.insert(c, v);
            proof {
                assert forall|c2: u64, t2: u64| #![trigger refs@[c2]@.contains(t2)] (refs@.contains_key(c2) && refs@[c2]@.contains(t2)) <==> ((r0.contains_key(c2)
                    && r0[c2]@.contains(t2)) || (c2 == c && t2 == t)) by {
                    if c2 == c {
                        assert(refs@[c2]@ == v0.push(t));
                        if v0.contains(t2) {
                            let k = choose|k: int| 0 <= k < v0.len() && v0[k] == t2;
                            assert(v0.push(t)[k] == t2);
                        }
                        if v0.push(t).contains(t2) && t2 != t {
                            let k = choose|k: int| 0 <= k < v0.push(t).len() && v0.push(t)[k] == t2;
                            assert(k < v0.len());
                            assert(v0[k] == t2);
                        }
                        assert(v0.push(t)[v0.len() as int] == t);
                    }
                }
                assert(refs@.dom() =~= r0.dom().insert(c));
            }
        },
        None => {
            refs.insert(c, vec![t]);
            proof {
                assert forall|c2: u64, t2: u64| #![trigger refs@[c2]@.contains(t2)] (refs@.contains_key(c2) && refs@[c2]@.contains(t2)) <==> ((r0.contains_key(c2)
                    && r0[c2]@.contains(t2)) || (c2 == c && t2 == t)) by {
                    if c2 == c {
                        assert(refs@[c2]@ == seq![t]);
                        if seq![t].contains(t2) {
                            let k = choose|k: int| 0 <= k < 1 && seq![t][k] == t2;
                        }
                        assert(seq![t][0] == t);
                    }
                }
                assert(refs@.dom() =~= r0.dom().insert(c));
            }
        },
    }
}

/// The types referring to each type: the inverse of `Type::children`.
fn build_referrers(types: &BTreeMap<u64, Type>, keys: &Vec<u64>) -> (refs: BTreeMap<u64, Vec<u64>>)
    requires
        forall|k: u64| #[trigger] keys@.contains(k) <==> types@.contains_key(k),
    ensures
        referrers_ok(types@, refs@),
{
    proof {
        lemma_u64_key_order();
    }
    let ghost m = types@;
    let mut refs: BTreeMap<u64, Vec<u64>> = BTreeMap::new();
    let mut i: usize = 0;
    while i < keys.len()
        invariant
            m == types@,
            i <= keys@.len(),
            forall|k: u64| #[trigger] keys@.contains(k) <==> m.contains_key(k),
            forall|c: u64, t: u64| #![trigger refs@[c]@.contains(t)] #![trigger m[t].spec_children().contains(c), keys@.take(i as int).contains(t)] (refs@.contains_key(c) && refs@[c]@.contains(t)) <==> (keys@.take(i as int).contains(t)
                && m[t].spec_children().contains(c)),
        decreases keys@.len() - i,
    {
        let t = keys[i];
        proof {
            assert(keys@.contains(t));
        }
        let kids = types.get(&t).unwrap().children();
        let mut j: usize = 0;
        while j < kids.len()
            invariant
                m == types@,
                kids@ == m[t].spec_children(),
                j <= kids@.len(),
                i < keys@.len(),
                t == keys@[i as int],
                refs_partial(m, refs@, keys@.take(i as int), t, kids@.take(j as int)),
            decreases kids@.len() - j,
        {
            let ghost r0 = refs@;
            let ghost j0 = j as int;
            add_referrer(&mut refs, kids[j], t);
            j = j + 1;
            proof {
                assert forall|c: u64, t2: u64| #![trigger refs@[c]@.contains(t2)] #![trigger m[t2].spec_children().contains(c), keys@.take(i as int).contains(t2)] (refs@.contains_key(c) && refs@[c]@.contains(t2)) <==> ((keys@.take(i as int).contains(t2)
                    && m[t2].spec_children().contains(c)) || (t2 == t && kids@.take(j as int).contains(c))) by {
                    assert(refs_partial(m, r0, keys@.take(i as int), t, kids@.take(j0)));
                    if kids@.take(j as int).contains(c) {
                        let k = choose|k: int| 0 <= k < j && #[trigger] kids@.take(j as int)[k] == c;
                        if k < j0 {
                            assert(kids@.take(j0)[k] == c);
                        }
                    }
                    if kids@.take(j0).contains(c) {
                        let k = choose|k: int| 0 <= k < j0 && #[trigger] kids@.take(j0)[k] == c;
                        assert(kids@.take(j as int)[k] == c);
                    }
                    if c == kids@[j0] {
                        assert(kids@.take(j as int)[j0] == c);
                    }
                }
                assert(refs_partial(m, refs@, keys@.take(i as int), t, kids@.take(j as int)));
            }
        }
        proof {
            assert(kids@.take(kids@.len() as int) == kids@);
            assert(refs_partial(m, refs@, keys@.take(i as int), t, kids@));
            assert forall|c: u64, t2: u64| #![trigger refs@[c]@.contains(t2)] #![trigger m[t2].spec_children().contains(c), keys@.take(i + 1).contains(t2)] (refs@.contains_key(c) && refs@[c]@.contains(t2)) <==> (keys@.take(i + 1).contains(t2)
                && m[t2].spec_children().contains(c)) by {
                if keys@.take(i + 1).contains(t2) {
                    let k = choose|k: int| 0 <= k < i + 1 && #[trigger] keys@.take(i + 1)[k] == t2;
                    if k < i {
                        assert(keys@.take(i as int)[k] == t2);
                    }
                }
                if keys@.take(i as int).contains(t2) {
                    let k = choose|k: int| 0 <= k < i && #[trigger] keys@.take(i as int)[k] == t2;
                    assert(keys@.take(i + 1)[k] == t2);
                }
                if t2 == t {
                    assert(keys@.take(i + 1)[i as int] == t2);
                }
            }
        }
        i = i + 1;
    }
    proof {
        assert(keys@.take(keys@.len() as int) == keys@);
        assert forall|c: u64, t: u64| #![trigger refs@[c]@.contains(t)] #![trigger m[t].spec_children().contains(c)] (refs@.contains_key(c) && refs@[c]@.contains(t)) <==> (m.contains_key(t) && m[t].spec_children().contains(c)) by {
            if m.contains_key(t) {
                assert(keys@.contains(t));
            }
        }
    }
    refs
}


/// Every type that keeps something resting on `z` without providing `z`
/// waits on a loss of `z` at one of its children still queued at or after
/// `head`, or is excused by `e`.
pub open spec fn settled(m: Map<u64, Type>, s: Settings, h: Set<Pair>, q: Seq<Pair>, head: int, e: Set<Pair>) -> bool {
    forall|t: u64, z: TypespaceTrait| #![trigger provides_at(m[t], s, z, h)]
        m.contains_key(t) && !stripped(m, t, z, h) && !provides_at(m[t], s, z, h) ==> pending_for(m, q, head, t, z)
            || e.contains((t, z))
}

/// The referrers of `c` not yet in `done`, waiting to be checked for `y`.
pub open spec fn waiting(m: Map<u64, Type>, c: u64, y: TypespaceTrait, done: Seq<u64>) -> Set<Pair> {
    Set::new(|p: Pair| p.1 == y && m[p.0].spec_children().contains(c) && !done.contains(p.0))
}

/// The seeds from index `k` on.
pub open spec fn seeds_from(seeds: Seq<Pair>, k: int) -> Set<Pair> {
    Set::new(|p: Pair| seeds.subrange(k, seeds.len() as int).contains(p))
}

/// The desired closure holds each trait something in it rests on.
pub proof fn lemma_close_upward(d0: Set<TypespaceTrait>, w: TypespaceTrait, z: TypespaceTrait)
    requires
        spec_close(d0).contains(w),
        spec_dependents(z).contains(w),
    ensures
        spec_close(d0).contains(z),
{
    if z == TypespaceTrait::PartialEq {
        assert(spec_dependents(z) =~= seq![z, TypespaceTrait::Eq, TypespaceTrait::PartialOrd, TypespaceTrait::Ord]);
    } else if z == TypespaceTrait::Eq || z == TypespaceTrait::PartialOrd {
        assert(spec_dependents(z) =~= seq![z, TypespaceTrait::Ord]);
    } else {
        assert(spec_dependents(z) =~= seq![z]);
    }
}

/// A type without any of `y` that it was not granted has lost everything
/// resting on `y`.
proof fn lemma_absent_stripped(m: Map<u64, Type>, s: Settings, d: Set<TypespaceTrait>, h: Set<Pair>, t: u64, y: TypespaceTrait)
    requires
        desired_core(m, s, d, h),
        !h.contains((t, y)),
    ensures
        stripped(m, t, y, h),
{
    assert forall|z: TypespaceTrait| #[trigger] spec_dependents(y).contains(z) && !granted_to(m, t).contains(z) implies !h.contains((t, z)) by {
        if h.contains((t, z)) {
            assert(h.contains((t, y)));
        }
    }
}

/// Removing pairs, each queued after `q1`, keeps every type settled, with
/// the excuses `e1` passed on to `e2` where still needed.
proof fn lemma_settle_after_lose(
    m: Map<u64, Type>,
    s: Settings,
    h1: Set<Pair>,
    h2: Set<Pair>,
    q1: Seq<Pair>,
    q2: Seq<Pair>,
    head: int,
    e1: Set<Pair>,
    e2: Set<Pair>,
)
    requires
        settled(m, s, h1, q1, head, e1),
        h2.subset_of(h1),
        0 <= head <= q1.len() <= q2.len(),
        q2.subrange(0, q1.len() as int) == q1,
        forall|p: Pair| h1.contains(p) && !h2.contains(p) ==> exists|i: int| q1.len() <= i < q2.len() && #[trigger] q2[i] == p,
        forall|t: u64, z: TypespaceTrait| #![trigger e1.contains((t, z))]
            m.contains_key(t) && e1.contains((t, z)) && !stripped(m, t, z, h2) && !provides_at(m[t], s, z, h2) ==> e2.contains((t, z)),
    ensures
        settled(m, s, h2, q2, head, e2),
{
    assert forall|t: u64, z: TypespaceTrait| #![trigger provides_at(m[t], s, z, h2)]
        m.contains_key(t) && !stripped(m, t, z, h2) && !provides_at(m[t], s, z, h2) implies pending_for(m, q2, head, t, z)
            || e2.contains((t, z)) by {
        let w = choose|w: TypespaceTrait| #[trigger] spec_dependents(z).contains(w) && !granted_to(m, t).contains(w) && h2.contains((t, w));
        assert(h1.contains((t, w)));
        assert(!stripped(m, t, z, h1));
        if provides_at(m[t], s, z, h1) {
            if !(exists|c: u64| #[trigger] m[t].spec_children().contains(c) && h1.contains((c, z)) != h2.contains((c, z))) {
                lemma_provides_local(m, s, t, z, h1, h2);
            }
            let c = choose|c: u64| #[trigger] m[t].spec_children().contains(c) && h1.contains((c, z)) != h2.contains((c, z));
            let i = choose|i: int| q1.len() <= i < q2.len() && #[trigger] q2[i] == (c, z);
            assert(pending_for(m, q2, head, t, z));
        } else {
            if pending_for(m, q1, head, t, z) {
                let i = choose|i: int| head <= i < q1.len() && (#[trigger] q1[i]).1 == z && m[t].spec_children().contains(q1[i].0);
                assert(q2[i] == q2.subrange(0, q1.len() as int)[i]);
                assert(pending_for(m, q2, head, t, z));
            } else {
                assert(e1.contains((t, z)));
            }
        }
    }
}

/// Popping the loss at `head` excuses, for now, the referrers of its type.
proof fn lemma_settle_pop(m: Map<u64, Type>, s: Settings, h: Set<Pair>, q: Seq<Pair>, head: int)
    requires
        settled(m, s, h, q, head, Set::empty()),
        0 <= head < q.len(),
    ensures
        settled(m, s, h, q, head + 1, waiting(m, q[head].0, q[head].1, Seq::empty())),
{
    let c = q[head].0;
    let y = q[head].1;
    assert forall|t: u64, z: TypespaceTrait| #![trigger provides_at(m[t], s, z, h)]
        m.contains_key(t) && !stripped(m, t, z, h) && !provides_at(m[t], s, z, h) implies pending_for(m, q, head + 1, t, z)
            || waiting(m, c, y, Seq::empty()).contains((t, z)) by {
        assert(pending_for(m, q, head, t, z) || Set::<Pair>::empty().contains((t, z)));
        let i = choose|i: int| head <= i < q.len() && (#[trigger] q[i]).1 == z && m[t].spec_children().contains(q[i].0);
        if i > head {
            assert(pending_for(m, q, head + 1, t, z));
        } else {
            assert(waiting(m, c, y, Seq::empty()).contains((t, z)));
        }
    }
}

/// Once every referrer of `c` is checked, nothing waits on it.
proof fn lemma_settle_done(m: Map<u64, Type>, s: Settings, h: Set<Pair>, q: Seq<Pair>, head: int, refs: Map<u64, Vec<u64>>, c: u64, y: TypespaceTrait, done: Seq<u64>)
    requires
        settled(m, s, h, q, head, waiting(m, c, y, done)),
        referrers_ok(m, refs),
        refs.contains_key(c) ==> done == refs[c]@,
    ensures
        settled(m, s, h, q, head, Set::empty()),
{
    assert forall|t: u64, z: TypespaceTrait| #![trigger provides_at(m[t], s, z, h)]
        m.contains_key(t) && !stripped(m, t, z, h) && !provides_at(m[t], s, z, h) implies pending_for(m, q, head, t, z)
            || Set::<Pair>::empty().contains((t, z)) by {
        if waiting(m, c, y, done).contains((t, z)) {
            assert(m[t].spec_children().contains(c));
            assert(refs.contains_key(c) && refs[c]@.contains(t));
        }
    }
}

/// With nothing left queued, what every type keeps is consistent.
proof fn lemma_settled_consistent(m: Map<u64, Type>, s: Settings, d: Set<TypespaceTrait>, h: Set<Pair>, q: Seq<Pair>)
    requires
        desired_core(m, s, d, h),
        settled(m, s, h, q, q.len() as int, Set::empty()),
    ensures
        consistent(m, s, d, h),
        forall|t: u64, x: TypespaceTrait| #[trigger] survives(m, s, d, t, x) <==> h.contains((t, x)),
{
    assert forall|t: u64, x: TypespaceTrait, y: TypespaceTrait|
        #![trigger h.contains((t, x)), spec_dependents(y).contains(x)]
        h.contains((t, x)) && !granted_to(m, t).contains(x) && spec_dependents(y).contains(x) implies h.contains((t, y))
            && provides_at(m[t], s, y, h) by {
        assert(everything(m, d).contains((t, x)));
        assert(!stripped(m, t, y, h));
        if !provides_at(m[t], s, y, h) {
            assert(pending_for(m, q, q.len() as int, t, y) || Set::<Pair>::empty().contains((t, y)));
        }
    }
    assert forall|t: u64, x: TypespaceTrait| #[trigger] survives(m, s, d, t, x) <==> h.contains((t, x)) by {
        if survives(m, s, d, t, x) {
            let h2 = choose|h2: Set<Pair>| #[trigger] consistent(m, s, d, h2) && h2.contains((t, x));
            assert(h2.subset_of(h));
        }
        if h.contains((t, x)) {
            assert(consistent(m, s, d, h) && h.contains((t, x)));
        }
    }
}


/// Every type of `keys`, each assumed to have all of `d`.
fn initial_has(keys: &Vec<u64>, d: TypespaceTraitSet) -> (has: BTreeMap<u64, TypespaceTraitSet>)
    ensures
        forall|k: u64| #[trigger] has@.contains_key(k) <==> keys@.contains(k),
        forall|k: u64| #[trigger] has@.contains_key(k) ==> has@[k] == d,
{
    proof {
        lemma_u64_key_order();
    }
    let mut has: BTreeMap<u64, TypespaceTraitSet> = BTreeMap::new();
    let mut i: usize = 0;
    while i < keys.len()
        invariant
            i <= keys@.len(),
            forall|k: u64| #[trigger] has@.contains_key(k) <==> keys@.take(i as int).contains(k),
            forall|k: u64| #[trigger] has@.contains_key(k) ==> has@[k] == d,
        decreases keys@.len() - i,
    {
        has.insert(keys[i], d);
        proof {
            assert forall|k: u64| #[trigger] has@.contains_key(k) <==> keys@.take(i + 1).contains(k) by {
                if keys@.take(i + 1).contains(k) {
                    let n = choose|n: int| 0 <= n < i + 1 && #[trigger] keys@.take(i + 1)[n] == k;
                    if n < i {
                        assert(keys@.take(i as int)[n] == k);
                    }
                }
                if keys@.take(i as int).contains(k) {
                    let n = choose|n: int| 0 <= n < i && #[trigger] keys@.take(i as int)[n] == k;
                    assert(keys@.take(i + 1)[n] == k);
                }
                if k == keys@[i as int] {
                    assert(keys@.take(i + 1)[i as int] == k);
                }
            }
        }
        i = i + 1;
    }
    proof {
        assert(keys@.take(keys@.len() as int) == keys@);
    }
    has
}

/// The traits required resolution granted type `t`.
fn granted_of(types: &BTreeMap<u64, Type>, t: u64) -> (g: TypespaceTraitSet)
    ensures
        g@ == granted_to(types@, t),
{
    proof {
        lemma_u64_key_order();
    }
    match types.get(&t) {
        Some(ty) => match ty.built_traits() {
            Some(b) => b,
            None => TypespaceTraitSet::empty(),
        },
        None => TypespaceTraitSet::empty(),
    }
}

/// `seeds` holds the pairs of a type among `done` (or `t` with a trait
/// among `part`) and a trait of `dl` that the type cannot provide under
/// `hh`.
pub open spec fn seeds_partial(
    m: Map<u64, Type>,
    s: Settings,
    hh: Set<Pair>,
    dl: Seq<TypespaceTrait>,
    done: Seq<u64>,
    t: u64,
    part: Seq<TypespaceTrait>,
    seeds: Seq<Pair>,
) -> bool {
    forall|p: Pair| #[trigger] seeds.contains(p) <==> ((done.contains(p.0) && dl.contains(p.1)) || (p.0 == t && part.contains(p.1)))
        && !provides_at(m[p.0], s, p.1, hh)
}

/// Each pair of a type and a trait of `dl` that the type cannot provide
/// even when everything it is built from has what `has` says.
fn find_seeds(
    types: &BTreeMap<u64, Type>,
    keys: &Vec<u64>,
    dl: &Vec<TypespaceTrait>,
    has: &BTreeMap<u64, TypespaceTraitSet>,
    settings: &Settings,
) -> (seeds: Vec<Pair>)
    requires
        forall|k: u64| #[trigger] keys@.contains(k) <==> types@.contains_key(k),
    ensures
        forall|p: Pair| #[trigger] seeds@.contains(p) <==> types@.contains_key(p.0) && dl@.contains(p.1) && !provides_at(
            types@[p.0],
            *settings,
            p.1,
            hset(has@),
        ),
{
    proof {
        lemma_u64_key_order();
    }
    let ghost m = types@;
    let ghost hh = hset(has@);
    let mut seeds: Vec<Pair> = Vec::new();
    let mut i: usize = 0;
    while i < keys.len()
        invariant
            i <= keys@.len(),
            forall|k: u64| #[trigger] keys@.contains(k) <==> m.contains_key(k),
            m == types@,
            hh == hset(has@),
            forall|p: Pair| #[trigger] seeds@.contains(p) <==> (keys@.take(i as int).contains(p.0) && dl@.contains(p.1))
                && !provides_at(m[p.0], *settings, p.1, hh),
        decreases keys@.len() - i,
    {
        let t = keys[i];
        proof {
            assert(keys@.contains(t));
        }
        let ty = types.get(&t).unwrap();
        let mut j: usize = 0;
        while j < dl.len()
            invariant
                j <= dl@.len(),
                i < keys@.len(),
                t == keys@[i as int],
                m == types@,
                hh == hset(has@),
                *ty == m[t],
                seeds_partial(m, *settings, hh, dl@, keys@.take(i as int), t, dl@.take(j as int), seeds@),
            decreases dl@.len() - j,
        {
            let x = dl[j];
            let ghost s0 = seeds@;
            if !provides(ty, x, has, settings) {
                seeds.push((t, x));
            }
            proof {
                assert forall|p: Pair| #[trigger] seeds@.contains(p) <==> ((keys@.take(i as int).contains(p.0) && dl@.contains(p.1))
                    || (p.0 == t && dl@.take(j + 1).contains(p.1))) && !provides_at(m[p.0], *settings, p.1, hh) by {
                    assert(s0.contains(p) <==> ((keys@.take(i as int).contains(p.0) && dl@.contains(p.1)) || (p.0 == t
                        && dl@.take(j as int).contains(p.1))) && !provides_at(m[p.0], *settings, p.1, hh));
                    if dl@.take(j + 1).contains(p.1) {
                        let n = choose|n: int| 0 <= n < j + 1 && #[trigger] dl@.take(j + 1)[n] == p.1;
                        if n < j {
                            assert(dl@.take(j as int)[n] == p.1);
                        }
                    }
                    if dl@.take(j as int).contains(p.1) {
                        let n = choose|n: int| 0 <= n < j && #[trigger] dl@.take(j as int)[n] == p.1;
                        assert(dl@.take(j + 1)[n] == p.1);
                    }
                    if p.1 == x {
                        assert(dl@.take(j + 1)[j as int] == p.1);
                    }
                    if seeds@.contains(p) && !s0.contains(p) {
                        assert(p == (t, x));
                    }
                    if s0.contains(p) {
                        let n = choose|n: int| 0 <= n < s0.len() && #[trigger] s0[n] == p;
                        assert(seeds@[n] == p);
                    }
                    if p == (t, x) && seeds@.len() > s0.len() {
                        assert(seeds@[s0.len() as int] == p);
                    }
                }
            }
            j = j + 1;
        }
        proof {
            assert(dl@.take(dl@.len() as int) == dl@);
            assert forall|p: Pair| #[trigger] seeds@.contains(p) <==> (keys@.take(i + 1).contains(p.0) && dl@.contains(p.1))
                && !provides_at(m[p.0], *settings, p.1, hh) by {
                if keys@.take(i + 1).contains(p.0) {
                    let n = choose|n: int| 0 <= n < i + 1 && #[trigger] keys@.take(i + 1)[n] == p.0;
                    if n < i {
                        assert(keys@.take(i as int)[n] == p.0);
                    }
                }
                if keys@.take(i as int).contains(p.0) {
                    let n = choose|n: int| 0 <= n < i && #[trigger] keys@.take(i as int)[n] == p.0;
                    assert(keys@.take(i + 1)[n] == p.0);
                }
                if p.0 == t {
                    assert(keys@.take(i + 1)[i as int] == p.0);
                }
            }
        }
        i = i + 1;
    }
    proof {
        assert(keys@.take(keys@.len() as int) == keys@);
    }
    seeds
}


/// Strip each seed from its type, queueing every loss.
fn apply_seeds(
    types: &BTreeMap<u64, Type>,
    settings: &Settings,
    seeds: &Vec<Pair>,
    has: &mut BTreeMap<u64, TypespaceTraitSet>,
    queue: &mut Vec<Pair>,
)
    requires
        old(queue)@ == Seq::<Pair>::empty(),
        old(has)@.dom() == types@.dom(),
        desired_core(types@, *settings, spec_close(settings.desired_traits@), hset(old(has)@)),
        settled(types@, *settings, hset(old(has)@), Seq::empty(), 0, seeds_from(seeds@, 0)),
        forall|p: Pair| #[trigger] seeds@.contains(p) ==> types@.contains_key(p.0) && !provides_at(
            types@[p.0],
            *settings,
            p.1,
            hset(old(has)@),
        ),
    ensures
        final(has)@.dom() == types@.dom(),
        desired_core(types@, *settings, spec_close(settings.desired_traits@), hset(final(has)@)),
        settled(types@, *settings, hset(final(has)@), final(queue)@, 0, Set::empty()),
{
    let ghost m = types@;
    let ghost s = *settings;
    let ghost d = spec_close(settings.desired_traits@);
    let ghost h_init = hset(has@);
    let mut k: usize = 0;
    while k < seeds.len()
        invariant
            k <= seeds@.len(),
            m == types@,
            s == *settings,
            d == spec_close(settings.desired_traits@),
            has@.dom() == m.dom(),
            desired_core(m, s, d, hset(has@)),
            hset(has@).subset_of(h_init),
            settled(m, s, hset(has@), queue@, 0, seeds_from(seeds@, k as int)),
            forall|p: Pair| #[trigger] seeds@.contains(p) ==> m.contains_key(p.0) && !provides_at(m[p.0], s, p.1, h_init),
        decreases seeds@.len() - k,
    {
        let (t, z) = seeds[k];
        let g = granted_of(types, t);
        let ghost h1 = hset(has@);
        let ghost q1 = queue@;
        proof {
            assert(seeds@.contains(seeds@[k as int]));
            if provides_at(m[t], s, z, h1) {
                lemma_provides_mono(m[t], s, z, h1, h_init);
            }
            lemma_lose_keeps(m, s, d, h1, t, z);
        }
        lose(has, queue, t, z, &g);
        proof {
            let h2 = hset(has@);
            assert(h2 =~= h1.difference(gone(t, z, granted_to(m, t))));
            assert forall|t2: u64, z2: TypespaceTrait| #![trigger seeds_from(seeds@, k as int).contains((t2, z2))]
                m.contains_key(t2) && seeds_from(seeds@, k as int).contains((t2, z2)) && !stripped(m, t2, z2, h2) && !provides_at(
                    m[t2],
                    s,
                    z2,
                    h2,
                ) implies seeds_from(seeds@, k + 1).contains((t2, z2)) by {
                let sub = seeds@.subrange(k as int, seeds@.len() as int);
                let n = choose|n: int| 0 <= n < sub.len() && #[trigger] sub[n] == (t2, z2);
                if n == 0 {
                    assert(sub[0] == seeds@[k as int]);
                } else {
                    assert(seeds@.subrange(k + 1, seeds@.len() as int)[n - 1] == (t2, z2));
                }
            }
            lemma_settle_after_lose(m, s, h1, h2, q1, queue@, 0, seeds_from(seeds@, k as int), seeds_from(seeds@, k + 1));
        }
        k = k + 1;
    }
    proof {
        assert(seeds_from(seeds@, seeds@.len() as int) =~= Set::<Pair>::empty());
    }
}

/// Carry each queued loss to the referrers of its type until nothing is
/// queued.
fn propagate(
    types: &BTreeMap<u64, Type>,
    settings: &Settings,
    refs: &BTreeMap<u64, Vec<u64>>,
    has: &mut BTreeMap<u64, TypespaceTraitSet>,
    queue: &mut Vec<Pair>,
)
    requires
        old(has)@.dom() == types@.dom(),
        desired_core(types@, *settings, spec_close(settings.desired_traits@), hset(old(has)@)),
        settled(types@, *settings, hset(old(has)@), old(queue)@, 0, Set::empty()),
        referrers_ok(types@, refs@),
    ensures
        final(has)@.dom() == types@.dom(),
        consistent(types@, *settings, spec_close(settings.desired_traits@), hset(final(has)@)),
        forall|t: u64, x: TypespaceTrait| #[trigger] survives(types@, *settings, spec_close(settings.desired_traits@), t, x)
            <==> hset(final(has)@).contains((t, x)),
{
    proof {
        lemma_u64_key_order();
    }
    let ghost m = types@;
    let ghost s = *settings;
    let ghost d = spec_close(settings.desired_traits@);
    let mut head: usize = 0;
    while head < queue.len()
        invariant
            m == types@,
            s == *settings,
            d == spec_close(settings.desired_traits@),
            head <= queue@.len(),
            has@.dom() == m.dom(),
            desired_core(m, s, d, hset(has@)),
            settled(m, s, hset(has@), queue@, head as int, Set::empty()),
            referrers_ok(m, refs@),
        decreases hset(has@).len(), queue@.len() - head,
    {
        let ghost h0 = hset(has@);
        let ghost qlen0 = queue@.len();
        proof {
            crate::trait_resolution::lemma_pairs_finite(m.dom());
            assert(h0.subset_of(crate::trait_resolution::pairs_over(m.dom())));
            vstd::set_lib::lemma_len_subset(h0, crate::trait_resolution::pairs_over(m.dom()));
            lemma_settle_pop(m, s, h0, queue@, head as int);
        }
        let (c, y) = queue[head];
        head = head + 1;
        match refs.get(&c) {
            Some(rs) => {
                let mut j: usize = 0;
                while j < rs.len()
                    invariant
                        m == types@,
                        s == *settings,
                        d == spec_close(settings.desired_traits@),
                        refs@.contains_key(c),
                        rs@ == refs@[c]@,
                        j <= rs@.len(),
                        1 <= head <= qlen0,
                        qlen0 <= queue@.len(),
                        has@.dom() == m.dom(),
                        desired_core(m, s, d, hset(has@)),
                        hset(has@).subset_of(h0),
                        hset(has@) == h0 ==> queue@.len() == qlen0,
                        settled(m, s, hset(has@), queue@, head as int, waiting(m, c, y, rs@.take(j as int))),
                        referrers_ok(m, refs@),
                    decreases rs@.len() - j,
                {
                    let t = rs[j];
                    proof {
                        assert(rs@.contains(rs@[j as int]));
                        assert(rs@.take(j + 1) =~= rs@.take(j as int).push(t));
                    }
                    let ty = types.get(&t).unwrap();
                    let ghost h1 = hset(has@);
                    let ghost q1 = queue@;
                    if child_has(has, t, y) && !provides(ty, y, has, settings) {
                        let g = granted_of(types, t);
                        proof {
                            lemma_lose_keeps(m, s, d, h1, t, y);
                        }
                        lose(has, queue, t, y, &g);
                        proof {
                            let h2 = hset(has@);
                            assert(h2 =~= h1.difference(gone(t, y, granted_to(m, t))));
                            assert forall|t2: u64, z2: TypespaceTrait| #![trigger waiting(m, c, y, rs@.take(j as int)).contains((t2, z2))]
                                m.contains_key(t2) && waiting(m, c, y, rs@.take(j as int)).contains((t2, z2)) && !stripped(m, t2, z2, h2)
                                    && !provides_at(m[t2], s, z2, h2) implies waiting(m, c, y, rs@.take(j + 1)).contains((t2, z2)) by {
                                if t2 == t {
                                    assert(stripped(m, t, y, h2));
                                }
                                assert(!rs@.take(j as int).push(t).contains(t2));
                            }
                            lemma_settle_after_lose(m, s, h1, h2, q1, queue@, head as int, waiting(m, c, y, rs@.take(j as int)), waiting(m, c, y, rs@.take(j + 1)));
                            if h2 == h0 {
                                assert(h1 == h0);
                                if queue@.len() > q1.len() {
                                    assert(h1.contains(queue@[q1.len() as int]) && !h2.contains(queue@[q1.len() as int]));
                                }
                            }
                        }
                    } else {
                        proof {
                            if !h1.contains((t, y)) {
                                lemma_absent_stripped(m, s, d, h1, t, y);
                            }
                            assert forall|t2: u64, z2: TypespaceTrait| #![trigger waiting(m, c, y, rs@.take(j as int)).contains((t2, z2))]
                                m.contains_key(t2) && waiting(m, c, y, rs@.take(j as int)).contains((t2, z2)) && !stripped(m, t2, z2, h1)
                                    && !provides_at(m[t2], s, z2, h1) implies waiting(m, c, y, rs@.take(j + 1)).contains((t2, z2)) by {
                                assert(!rs@.take(j as int).push(t).contains(t2));
                            }
                            assert(q1.subrange(0, q1.len() as int) =~= q1);
                            lemma_settle_after_lose(m, s, h1, h1, q1, q1, head as int, waiting(m, c, y, rs@.take(j as int)), waiting(m, c, y, rs@.take(j + 1)));
                        }
                    }
                    j = j + 1;
                }
                proof {
                    assert(rs@.take(rs@.len() as int) == rs@);
                    lemma_settle_done(m, s, hset(has@), queue@, head as int, refs@, c, y, rs@);
                }
            },
            None => {
                proof {
                    lemma_settle_done(m, s, hset(has@), queue@, head as int, refs@, c, y, Seq::empty());
                }
            },
        }
        proof {
            let h = hset(has@);
            if h != h0 {
                assert(!(h =~= h0));
                let a = choose|a: Pair| h0.contains(a) && !h.contains(a);
                vstd::set_lib::lemma_len_subset(h, h0.remove(a));
            }
        }
    }
    proof {
        lemma_settled_consistent(m, s, d, hset(has@), queue@);
    }
}


/// `a` with every member of `b` added.
fn union_with(a: TypespaceTraitSet, b: TypespaceTraitSet) -> (r: TypespaceTraitSet)
    ensures
        r@ == a@.union(b@),
{
    let members = b.iter();
    let mut r = a;
    let mut i: usize = 0;
    while i < members.len()
        invariant
            i <= members@.len(),
            forall|x: TypespaceTrait| #[trigger] members@.contains(x) <==> b@.contains(x),
            r@ == a@.union(Set::new(|x: TypespaceTrait| members@.take(i as int).contains(x))),
        decreases members@.len() - i,
    {
        let ghost r0 = r@;
        r.add(members[i]);
        proof {
            assert forall|x: TypespaceTrait| #[trigger] members@.take(i + 1).contains(x) <==> (members@.take(i as int).contains(x)
                || x == members@[i as int]) by {
                if members@.take(i + 1).contains(x) {
                    let n = choose|n: int| 0 <= n < i + 1 && #[trigger] members@.take(i + 1)[n] == x;
                    if n < i {
                        assert(members@.take(i as int)[n] == x);
                    }
                }
                if members@.take(i as int).contains(x) {
                    let n = choose|n: int| 0 <= n < i && #[trigger] members@.take(i as int)[n] == x;
                    assert(members@.take(i + 1)[n] == x);
                }
                if x == members@[i as int] {
                    assert(members@.take(i + 1)[i as int] == x);
                }
            }
            assert(r@ =~= a@.union(Set::new(|x: TypespaceTrait| members@.take(i + 1).contains(x))));
        }
        i = i + 1;
    }
    proof {
        assert(members@.take(members@.len() as int) == members@);
        assert(r@ =~= a@.union(b@));
    }
    r
}

/// Whether every member of `fam` is in `survivors`.
fn covered(fam: TypespaceTraitSet, survivors: TypespaceTraitSet) -> (b: bool)
    ensures
        b == fam@.subset_of(survivors@),
{
    let members = fam.iter();
    let mut i: usize = 0;
    while i < members.len()
        invariant
            i <= members@.len(),
            forall|x: TypespaceTrait| #[trigger] members@.contains(x) <==> fam@.contains(x),
            forall|k: int| 0 <= k < i ==> survivors@.contains(#[trigger] members@[k]),
        decreases members@.len() - i,
    {
        if !survivors.contains(&members[i]) {
            proof {
                assert(members@.contains(members@[i as int]));
            }
            return false;
        }
        i = i + 1;
    }
    proof {
        assert forall|x: TypespaceTrait| fam@.contains(x) implies survivors@.contains(x) by {
            assert(members@.contains(x));
            let k = choose|k: int| 0 <= k < members@.len() && members@[k] == x;
        }
    }
    true
}

/// The family of each requested trait: the trait with the supertraits its
/// closure adds.
fn families_of(requested: &Vec<TypespaceTrait>) -> (fams: Vec<TypespaceTraitSet>)
    ensures
        fams@.len() == requested@.len(),
        forall|i: int| 0 <= i < fams@.len() ==> (#[trigger] fams@[i])@ == close_one(requested@[i]),
{
    let mut fams: Vec<TypespaceTraitSet> = Vec::new();
    let mut i: usize = 0;
    while i < requested.len()
        invariant
            i <= requested@.len(),
            fams@.len() == i,
            forall|k: int| 0 <= k < i ==> (#[trigger] fams@[k])@ == close_one(requested@[k]),
        decreases requested@.len() - i,
    {
        let mut one = TypespaceTraitSet::empty();
        one.add(requested[i]);
        fams.push(close_supertraits(one));
        i = i + 1;
    }
    fams
}

/// `built` with every family of `fams` that survives whole in
/// `survivors`.
fn add_families(built: TypespaceTraitSet, fams: &Vec<TypespaceTraitSet>, survivors: TypespaceTraitSet) -> (r: TypespaceTraitSet)
    ensures
        r@ == built@.union(
            Set::new(
                |x: TypespaceTrait|
                    exists|i: int| 0 <= i < fams@.len() && fams@[i]@.subset_of(survivors@) && #[trigger] fams@[i]@.contains(x),
            ),
        ),
{
    let mut r = built;
    let mut i: usize = 0;
    while i < fams.len()
        invariant
            i <= fams@.len(),
            r@ == built@.union(
                Set::new(
                    |x: TypespaceTrait|
                        exists|k: int| 0 <= k < i && fams@[k]@.subset_of(survivors@) && #[trigger] fams@[k]@.contains(x),
                ),
            ),
        decreases fams@.len() - i,
    {
        let ghost r0 = r@;
        if covered(fams[i], survivors) {
            r = union_with(r, fams[i]);
        }
        proof {
            assert(r@ =~= built@.union(
                Set::new(
                    |x: TypespaceTrait|
                        exists|k: int| 0 <= k < i + 1 && fams@[k]@.subset_of(survivors@) && #[trigger] fams@[k]@.contains(x),
                ),
            )) by {
                assert forall|x: TypespaceTrait| r@.contains(x) <==> built@.contains(x) || exists|k: int|
                    0 <= k < i + 1 && fams@[k]@.subset_of(survivors@) && #[trigger] fams@[k]@.contains(x) by {
                    if exists|k: int| 0 <= k < i + 1 && fams@[k]@.subset_of(survivors@) && #[trigger] fams@[k]@.contains(x) {
                        let k = choose|k: int| 0 <= k < i + 1 && fams@[k]@.subset_of(survivors@) && #[trigger] fams@[k]@.contains(x);
                        if k < i {
                            assert(r0.contains(x));
                        }
                    }
                }
            }
        }
        i = i + 1;
    }
    r
}

/// What desired resolution of `m0` under `s` produced `m`: every type is
/// as it was but for the traits recorded, and each type with a recorded
/// set records, beside what it had, the desired families that survive
/// whole at it.
pub open spec fn desired_resolved(m0: Map<u64, Type>, s: Settings, m: Map<u64, Type>) -> bool {
    &&& m.dom() == m0.dom()
    &&& forall|t: u64| #[trigger] m.contains_key(t) ==> m[t].agrees_except_built(m0[t])
    &&& forall|t: u64| #[trigger] m0.contains_key(t) && m0[t].built_of() is Some ==> m[t].built_of() is Some
        && m[t].built_of()->0@ == m0[t].built_of()->0@.union(families_added(m0, s, t))
    &&& forall|t: u64| #[trigger] m0.contains_key(t) && m0[t].built_of() is None ==> m[t] == m0[t]
}

/// Give each named type the desired traits it can support.
///
/// Each type starts out assumed to have every desired trait and the
/// supertraits their closure adds. The traits a type cannot provide even
/// so seed a queue of losses; each loss reaches the types referring to the
/// loser, which lose the trait in turn when they can no longer provide it,
/// until the queue drains. A named type then records, beside what required
/// resolution granted it, each desired family that survived whole. A type
/// that cannot have a desired trait simply goes without it.
pub fn desired_resolution(types: &mut BTreeMap<u64, Type>, settings: &Settings)
    ensures
        desired_resolved(old(types)@, *settings, final(types)@),
{
    proof {
        lemma_u64_key_order();
    }
    let ghost m = types@;
    let ghost s = *settings;
    let ghost d = spec_close(settings.desired_traits@);
    let desired = close_supertraits(settings.desired_traits);
    if desired.is_empty() {
        proof {
            assert forall|t: u64| #[trigger] m.contains_key(t) && m[t].built_of() is Some implies m[t].built_of()->0@ == m[t].built_of()->0@.union(
                families_added(m, s, t),
            ) by {
                assert forall|x: TypespaceTrait| !families_added(m, s, t).contains(x) by {
                    if families_added(m, s, t).contains(x) {
                        let f = choose|f: TypespaceTrait| #[trigger] s.desired_traits@.contains(f) && close_one(f).contains(x) && forall|z: TypespaceTrait|
                            #[trigger] close_one(f).contains(z) ==> survives(m, s, d, t, z);
                        assert(d.contains(f));
                    }
                }
                assert(m[t].built_of()->0@ =~= m[t].built_of()->0@.union(families_added(m, s, t)));
            }
            assert forall|t: u64| #[trigger] types@.contains_key(t) implies types@[t].agrees_except_built(m[t]) by {}
        }
        return;
    }
    let requested = settings.desired_traits.iter();
    let fams = families_of(&requested);
    let dl = desired.iter();
    let keys = sorted_keys(types);
    let refs = build_referrers(types, &keys);
    let mut has = initial_has(&keys, desired);
    proof {
        assert(has@.dom() =~= m.dom());
        assert(hset(has@) =~= everything(m, d));
        assert forall|t: u64, x: TypespaceTrait, y: TypespaceTrait|
            #![trigger everything(m, d).contains((t, x)), spec_dependents(y).contains(x)]
            everything(m, d).contains((t, x)) && !granted_to(m, t).contains(x) && spec_dependents(y).contains(x) implies everything(
                m,
                d,
            ).contains((t, y)) by {
            lemma_close_upward(settings.desired_traits@, x, y);
        }
        assert(desired_core(m, s, d, hset(has@)));
    }
    let seeds = find_seeds(types, &keys, &dl, &has, settings);
    proof {
        assert(seeds_from(seeds@, 0) =~= seeds@.to_set()) by {
            assert(seeds@.subrange(0, seeds@.len() as int) == seeds@);
        }
        assert forall|t: u64, z: TypespaceTrait| #![trigger provides_at(m[t], s, z, hset(has@))]
            m.contains_key(t) && !stripped(m, t, z, hset(has@)) && !provides_at(m[t], s, z, hset(has@)) implies pending_for(
                m,
                Seq::empty(),
                0,
                t,
                z,
            ) || seeds_from(seeds@, 0).contains((t, z)) by {
            let w = choose|w: TypespaceTrait| #[trigger] spec_dependents(z).contains(w) && !granted_to(m, t).contains(w) && hset(has@).contains((t, w));
            lemma_close_upward(settings.desired_traits@, w, z);
            assert(seeds@.contains((t, z)));
        }
    }
    let mut queue: Vec<Pair> = Vec::new();
    apply_seeds(types, settings, &seeds, &mut has, &mut queue);
    propagate(types, settings, &refs, &mut has, &mut queue);
    let ghost hf = hset(has@);
    let mut i: usize = 0;
    while i < keys.len()
        invariant
            i <= keys@.len(),
            m.dom() == types@.dom(),
            s == *settings,
            d == spec_close(settings.desired_traits@),
            has@.dom() == m.dom(),
            hf == hset(has@),
            forall|k: u64| #[trigger] keys@.contains(k) <==> m.contains_key(k),
            keys@.no_duplicates(),
            fams@.len() == requested@.len(),
            forall|k: int| 0 <= k < fams@.len() ==> (#[trigger] fams@[k])@ == close_one(requested@[k]),
            forall|x: TypespaceTrait| #[trigger] requested@.contains(x) <==> settings.desired_traits@.contains(x),
            forall|t: u64, x: TypespaceTrait| #[trigger] survives(m, s, d, t, x) <==> hf.contains((t, x)),
            forall|t: u64| #[trigger] types@.contains_key(t) ==> types@[t].agrees_except_built(m[t]),
            forall|t: u64| #[trigger] m.contains_key(t) && !keys@.take(i as int).contains(t) ==> types@[t] == m[t],
            forall|t: u64| #[trigger] m.contains_key(t) && m[t].built_of() is None ==> types@[t] == m[t],
            forall|t: u64|
                #[trigger] keys@.take(i as int).contains(t) && m[t].built_of() is Some ==> types@[t].built_of() is Some
                    && types@[t].built_of()->0@ == m[t].built_of()->0@.union(families_added(m, s, t)),
        decreases keys@.len() - i,
    {
        let t = keys[i];
        proof {
            assert(keys@.contains(t));
            assert(!keys@.take(i as int).contains(t)) by {
                if keys@.take(i as int).contains(t) {
                    let n = choose|n: int| 0 <= n < i && #[trigger] keys@.take(i as int)[n] == t;
                    assert(keys@[n] == keys@[i as int]);
                }
            }
            assert forall|u: u64| #[trigger] keys@.take(i + 1).contains(u) <==> (keys@.take(i as int).contains(u) || u == t) by {
                if keys@.take(i + 1).contains(u) {
                    let n = choose|n: int| 0 <= n < i + 1 && #[trigger] keys@.take(i + 1)[n] == u;
                    if n < i {
                        assert(keys@.take(i as int)[n] == u);
                    }
                }
                if keys@.take(i as int).contains(u) {
                    let n = choose|n: int| 0 <= n < i && #[trigger] keys@.take(i as int)[n] == u;
                    assert(keys@.take(i + 1)[n] == u);
                }
                if u == t {
                    assert(keys@.take(i + 1)[i as int] == u);
                }
            }
        }
        match types.get(&t).unwrap().built_traits() {
            Some(b) => {
                let survivors = *has.get(&t).unwrap();
                let nb = add_families(b, &fams, survivors);
                let mut ty = types.remove(&t).unwrap();
                ty.set_built(nb);
                types.insert(t, ty);
                proof {
                    assert(survivors@ == has@[t]@);
                    assert forall|x: TypespaceTrait| nb@.contains(x) <==> b@.union(families_added(m, s, t)).contains(x) by {
                        if exists|k: int| 0 <= k < fams@.len() && fams@[k]@.subset_of(survivors@) && #[trigger] fams@[k]@.contains(x) {
                            let k = choose|k: int| 0 <= k < fams@.len() && fams@[k]@.subset_of(survivors@) && #[trigger] fams@[k]@.contains(x);
                            let f = requested@[k];
                            assert(requested@.contains(f));
                            assert forall|z: TypespaceTrait| #[trigger] close_one(f).contains(z) implies survives(m, s, d, t, z) by {
                                assert(survivors@.contains(z));
                                assert(hf.contains((t, z)));
                            }
                            assert(families_added(m, s, t).contains(x));
                        }
                        if families_added(m, s, t).contains(x) {
                            let f = choose|f: TypespaceTrait| #[trigger] s.desired_traits@.contains(f) && close_one(f).contains(x) && forall|z: TypespaceTrait|
                                #[trigger] close_one(f).contains(z) ==> survives(m, s, d, t, z);
                            assert(requested@.contains(f));
                            let k = choose|k: int| 0 <= k < requested@.len() && requested@[k] == f;
                            assert(fams@[k]@ == close_one(f));
                            assert forall|z: TypespaceTrait| fams@[k]@.contains(z) implies survivors@.contains(z) by {
                                assert(close_one(f).contains(z));
                                assert(survives(m, s, d, t, z));
                                assert(hf.contains((t, z)));
                            }
                            assert(fams@[k]@.contains(x));
                        }
                    }
                    assert(nb@ =~= b@.union(families_added(m, s, t)));
                }
            },
            None => {},
        }
        i = i + 1;
    }
    proof {
        assert(keys@.take(keys@.len() as int) == keys@);
    }
}

} // verus!
