//! Trait resolution: determine the traits of each type.
//!
//! Runs during finalization in two phases. Phase 1 resolves required
//! traits: requirements (from settings and from use sites such as map keys
//! and set elements) descend the type graph, each named type absorbs what
//! it can satisfy, and every unsatisfiable requirement is collected into a
//! [`TraitConflict`]. Phase 2 resolves desired traits: each named type
//! takes a desired trait exactly when it can realize it and every type it
//! depends on has it; unsatisfiable desired traits are dropped silently.
//!
//! The specifications describe phase 1 pair by pair: a pair is a type ID
//! and one trait required of it. The pairs reached are the least set that
//! holds every seed and every successor of its members; a named type
//! absorbs exactly the reached traits it can have, and the requirement
//! fails exactly when some reached pair is a local conflict.

use std::collections::{BTreeMap, VecDeque};

use vstd::prelude::*;

use crate::build::enums::{Enum, EnumVariant, VariantDetails};
use crate::build::structs::{
    spec_wire_name, NewtypeConstraints, NewtypeStruct, Struct, StructProperty, StructPropertySerde,
    StructPropertyState, TupleStruct,
};
use crate::build::{spec_contained_related, ContainedChild, Type};
use crate::graph::{anon_acyclic, anon_edge, anon_ranked, closed, lemma_u64_key_order, sorted_keys};
use crate::error::{Error, OffenderReason, PathStep, Relation, RequirementOrigin, TraitConflict};
use crate::json::{members_have_key, object_contains_key, JsonValue};
use crate::settings::{ContainerType, Settings};
use crate::traits::{TraitProvision, TypespaceTrait, TypespaceTraitSet};

verus! {

/// `s` together with the supertraits its members imply: `Ord` implies
/// `PartialOrd`, `Eq`, and `PartialEq`; `Eq` and `PartialOrd` each imply
/// `PartialEq`.
pub open spec fn spec_close(s: Set<TypespaceTrait>) -> Set<TypespaceTrait> {
    Set::new(
        |t: TypespaceTrait|
            s.contains(t) || (s.contains(TypespaceTrait::Ord) && (t == TypespaceTrait::PartialOrd || t
                == TypespaceTrait::Eq || t == TypespaceTrait::PartialEq)) || (t == TypespaceTrait::PartialEq && (s.contains(
                TypespaceTrait::Eq,
            ) || s.contains(TypespaceTrait::PartialOrd))),
    )
}

/// The closure of a single trait.
pub open spec fn close_one(x: TypespaceTrait) -> Set<TypespaceTrait> {
    spec_close(Set::empty().insert(x))
}

/// Expand a requirement set to include the supertraits its members imply.
///
/// Applied to every requirement set as it is formed, so that a lone `Ord`
/// never derives without the `Eq`, `PartialEq`, and `PartialOrd` impls it
/// needs.
pub fn close_supertraits(traits: TypespaceTraitSet) -> (r: TypespaceTraitSet)
    ensures
        r@ == spec_close(traits@),
{
    let mut traits = traits;
    let ghost orig = traits@;
    if traits.contains(&TypespaceTrait::Ord) {
        traits.add(TypespaceTrait::PartialOrd);
        traits.add(TypespaceTrait::Eq);
        traits.add(TypespaceTrait::PartialEq);
    }
    if traits.contains(&TypespaceTrait::Eq) {
        traits.add(TypespaceTrait::PartialEq);
    }
    if traits.contains(&TypespaceTrait::PartialOrd) {
        traits.add(TypespaceTrait::PartialEq);
    }
    proof {
        assert(traits@ =~= spec_close(orig));
    }
    traits
}

/// The traits that cannot survive without `t`, `t` first: the supertrait
/// closure run backwards.
pub open spec fn spec_dependents(t: TypespaceTrait) -> Seq<TypespaceTrait> {
    match t {
        TypespaceTrait::PartialEq => seq![t, TypespaceTrait::Eq, TypespaceTrait::PartialOrd, TypespaceTrait::Ord],
        TypespaceTrait::Eq | TypespaceTrait::PartialOrd => seq![t, TypespaceTrait::Ord],
        _ => seq![t],
    }
}

/// `trait_name` and every trait that cannot survive without it.
pub fn strip_dependents(trait_name: TypespaceTrait) -> (v: Vec<TypespaceTrait>)
    ensures
        v@ == spec_dependents(trait_name),
{
    match trait_name {
        TypespaceTrait::PartialEq => vec![
            trait_name,
            TypespaceTrait::Eq,
            TypespaceTrait::PartialOrd,
            TypespaceTrait::Ord,
        ],
        TypespaceTrait::Eq | TypespaceTrait::PartialOrd => vec![trait_name, TypespaceTrait::Ord],
        _ => vec![trait_name],
    }
}

/// Whether a trait is one no container provides.
pub open spec fn display_like(t: TypespaceTrait) -> bool {
    t == TypespaceTrait::Display || t == TypespaceTrait::FromStr
}

/// Whether a property must implement a trait for the hand-written
/// `Default` of its struct: with an attached default value, every
/// property the value does not name (a non-object value names none, and a
/// flattened property has no name to look for), optional ones aside;
/// without one, every property in the `Default` state.
pub open spec fn obligated_by_default(p: StructProperty, default: Option<JsonValue>) -> bool {
    match default {
        Some(d) => !(p.state is Optional) && !(d is Object && spec_wire_name(p) is Some && members_have_key(
            d->Object_0@,
            spec_wire_name(p)->0,
        )),
        None => p.state is Default,
    }
}

/// The types of the properties obligated by a struct's `Default`, in
/// order.
pub open spec fn default_obligations(props: Seq<StructProperty>, default: Option<JsonValue>) -> Seq<u64>
    decreases props.len(),
{
    if props.len() == 0 {
        Seq::empty()
    } else {
        default_obligations(props.drop_last(), default) + if obligated_by_default(props.last(), default) {
            seq![props.last().type_id]
        } else {
            Seq::empty()
        }
    }
}

/// The children a struct's hand-written `Default` obligates: each
/// obligated property, reached as a required field, in order.
pub open spec fn default_obligation_children(props: Seq<StructProperty>, default: Option<JsonValue>) -> Seq<ContainedChild>
    decreases props.len(),
{
    if props.len() == 0 {
        Seq::empty()
    } else {
        default_obligation_children(props.drop_last(), default) + if obligated_by_default(props.last(), default) {
            seq![ContainedChild { relation: Relation::Field(props.last().rust_name), id: props.last().type_id, optional: false }]
        } else {
            Seq::empty()
        }
    }
}

/// Whether a named type realizes `x` with a manual impl: a struct's
/// `Default`, a tuple struct's `Default` from its attached value, a
/// newtype's `Display` and `FromStr`, and an enum's `Display`, `FromStr`,
/// and `Default` (from its attached value), wherever the trait is
/// possible at all.
pub open spec fn feas_manual(ty: Type, x: TypespaceTrait, compat: bool) -> bool {
    !feas_impossible(ty, x, compat) && match ty {
        Type::Struct(_) => x == TypespaceTrait::Default,
        Type::TupleStruct(t) => x == TypespaceTrait::Default && t.common.default is Some,
        Type::NewtypeStruct(_) => display_like(x),
        Type::Enum(_) => display_like(x) || x == TypespaceTrait::Default,
        _ => false,
    }
}

/// What the manual impl of `x` on named type `ty` obligates, with the
/// relation reaching each: a struct's obligated properties as fields; a
/// newtype's inner type for `Display`, and for the `FromStr` of an
/// unconstrained newtype; every payload of an untagged enum for its
/// `Display` and `FromStr`; nothing otherwise.
pub open spec fn manual_children(ty: Type, x: TypespaceTrait) -> Seq<ContainedChild> {
    match ty {
        Type::Struct(s) => default_obligation_children(s.properties@, s.common.default),
        Type::NewtypeStruct(n) => if x == TypespaceTrait::Display || (x == TypespaceTrait::FromStr && n.constraints is Unconstrained) {
            seq![ContainedChild { relation: Relation::Inner, id: n.inner, optional: false }]
        } else {
            Seq::empty()
        },
        Type::Enum(e) => if display_like(x) && !e.spec_all_tagged_unit_variants() {
            crate::build::spec_contained_related(ty)
        } else {
            Seq::empty()
        },
        _ => Seq::empty(),
    }
}

/// Whether a named type can have `x` in no form: no derive and no manual
/// impl exists for it.
///
/// `Display` and `FromStr` are impossible on structs, tuple structs, and
/// unit structs, and on enums that are neither all tagged unit variants
/// nor all untagged single-payload variants. `Default` is impossible on a
/// struct with a required property and no attached default value, on an
/// enum without an attached default value, on a newtype struct with one,
/// and, in typify-compatible mode, on tuple, unit, and newtype structs.
/// `FromStr` is impossible, too, on an untagged enum whose payload of a
/// variant other than the last parses every string (its recorded
/// [`Enum::from_str_refusal`]).
pub open spec fn feas_impossible(ty: Type, x: TypespaceTrait, compat: bool) -> bool {
    match ty {
        Type::Struct(s) => display_like(x) || (x == TypespaceTrait::Default && s.common.default is None && exists|i: int|
            0 <= i < s.properties@.len() && (#[trigger] s.properties@[i]).state is Required),
        Type::TupleStruct(_) | Type::UnitStruct(_) => display_like(x) || (x == TypespaceTrait::Default && compat),
        Type::NewtypeStruct(n) => x == TypespaceTrait::Default && (compat || n.common.default is Some),
        Type::Enum(e) => (display_like(x) && !e.spec_all_tagged_unit_variants()
            && !e.spec_all_untagged_item_variants()) || (x == TypespaceTrait::Default && e.common.default is None)
            || (x == TypespaceTrait::FromStr && e.from_str_refusal is Some),
        _ => false,
    }
}

/// The types that must have `x` for a named type to have it: every
/// contained child for a derived or forwarded trait, and what a manual
/// impl obligates for a manually realized one.
pub open spec fn feas_targets(ty: Type, x: TypespaceTrait, compat: bool) -> Seq<u64> {
    if feas_impossible(ty, x, compat) {
        Seq::empty()
    } else {
        match ty {
            Type::Struct(s) => if x == TypespaceTrait::Default {
                default_obligations(s.properties@, s.common.default)
            } else {
                ty.spec_contained()
            },
            Type::TupleStruct(t) => if x == TypespaceTrait::Default && t.common.default is Some {
                Seq::empty()
            } else {
                ty.spec_contained()
            },
            Type::NewtypeStruct(n) => if x == TypespaceTrait::Display {
                seq![n.inner]
            } else if x == TypespaceTrait::FromStr {
                if n.constraints is Unconstrained {
                    seq![n.inner]
                } else {
                    Seq::empty()
                }
            } else {
                ty.spec_contained()
            },
            Type::Enum(e) => if display_like(x) {
                if e.spec_all_tagged_unit_variants() {
                    Seq::empty()
                } else {
                    ty.spec_contained()
                }
            } else if x == TypespaceTrait::Default {
                Seq::empty()
            } else {
                ty.spec_contained()
            },
            _ => ty.spec_contained(),
        }
    }
}

/// What a named type can do about one required trait.
pub enum Feasibility {
    /// The type derives the trait as long as every contained child does.
    Derivable,
    /// The type realizes the trait with a manual impl; the listed targets
    /// must also implement it.
    ManuallyRealizable(Vec<ContainedChild>),
    /// A type alias: the trait's fate is entirely its target's.
    Forward,
    /// No derive and no manual impl exists for this kind of type and
    /// trait.
    Impossible,
}

/// The IDs a list of contained children names.
pub open spec fn ids_of(cs: Seq<ContainedChild>) -> Seq<u64> {
    crate::build::child_ids(cs)
}

/// Whether property `p` is obligated by the hand-written `Default` of its
/// struct.
fn is_obligated(p: &StructProperty, default: &Option<JsonValue>) -> (b: bool)
    ensures
        b == obligated_by_default(*p, *default),
{
    match default {
        Some(d) => {
            if matches!(p.state, StructPropertyState::Optional) {
                return false;
            }
            match (d.as_object(), p.wire_name()) {
                (Some(members), Some(wire)) => !object_contains_key(members, wire),
                _ => true,
            }
        },
        None => matches!(p.state, StructPropertyState::Default),
    }
}

/// The properties a struct's hand-written `Default` obligates, each with
/// its field relation.
fn default_obligation_list(props: &Vec<StructProperty>, default: &Option<JsonValue>) -> (r: Vec<ContainedChild>)
    ensures
        ids_of(r@) == default_obligations(props@, *default),
        r@ == default_obligation_children(props@, *default),
{
    let mut out: Vec<ContainedChild> = Vec::new();
    let mut i: usize = 0;
    while i < props.len()
        invariant
            i <= props@.len(),
            ids_of(out@) == default_obligations(props@.take(i as int), *default),
            out@ == default_obligation_children(props@.take(i as int), *default),
        decreases props@.len() - i,
    {
        proof {
            assert(props@.take(i + 1).drop_last() == props@.take(i as int));
            assert(props@.take(i + 1).last() == props@[i as int]);
        }
        if is_obligated(&props[i], default) {
            out.push(ContainedChild::required(Relation::Field(props[i].rust_name.clone()), props[i].type_id));
            proof {
                assert(ids_of(out@) =~= default_obligations(props@.take(i + 1), *default));
                assert(out@ =~= default_obligation_children(props@.take(i + 1), *default));
            }
        } else {
            proof {
                assert(ids_of(out@) =~= default_obligations(props@.take(i + 1), *default));
                assert(out@ =~= default_obligation_children(props@.take(i + 1), *default));
            }
        }
        i = i + 1;
    }
    proof {
        assert(props@.take(props@.len() as int) == props@);
    }
    out
}

/// Whether some property is required.
fn any_required(props: &Vec<StructProperty>) -> (b: bool)
    ensures
        b == exists|i: int| 0 <= i < props@.len() && (#[trigger] props@[i]).state is Required,
{
    let mut i: usize = 0;
    while i < props.len()
        invariant
            i <= props@.len(),
            forall|j: int| 0 <= j < i ==> !((#[trigger] props@[j]).state is Required),
        decreases props@.len() - i,
    {
        if matches!(props[i].state, StructPropertyState::Required) {
            return true;
        }
        i = i + 1;
    }
    false
}

/// Consult the feasibility table for trait `x` on named type `ty`.
pub fn feasibility(ty: &Type, x: TypespaceTrait, settings: &Settings) -> (r: Feasibility)
    requires
        ty.spec_is_named(),
    ensures
        r is Impossible <==> feas_impossible(*ty, x, settings.typify_compat),
        r is Forward <==> ty is TypeAlias,
        r is ManuallyRealizable <==> feas_manual(*ty, x, settings.typify_compat),
        r is Derivable <==> !(ty is TypeAlias) && !feas_impossible(*ty, x, settings.typify_compat) && !feas_manual(
            *ty,
            x,
            settings.typify_compat,
        ),
        r matches Feasibility::ManuallyRealizable(v) ==> v@ == manual_children(*ty, x),
        (r is Derivable || r is Forward) ==> feas_targets(*ty, x, settings.typify_compat) == ty.spec_contained(),
        r matches Feasibility::ManuallyRealizable(v) ==> ids_of(v@) == feas_targets(*ty, x, settings.typify_compat),
{
    let compat = settings.typify_compat;
    match ty {
        Type::TypeAlias(_) => Feasibility::Forward,
        Type::Struct(s) => {
            if x == TypespaceTrait::Display || x == TypespaceTrait::FromStr {
                Feasibility::Impossible
            } else if x == TypespaceTrait::Default {
                if s.common.default.is_some() {
                    Feasibility::ManuallyRealizable(default_obligation_list(&s.properties, &s.common.default))
                } else if any_required(&s.properties) {
                    Feasibility::Impossible
                } else {
                    Feasibility::ManuallyRealizable(default_obligation_list(&s.properties, &s.common.default))
                }
            } else {
                Feasibility::Derivable
            }
        },
        Type::TupleStruct(t) => {
            if x == TypespaceTrait::Display || x == TypespaceTrait::FromStr {
                Feasibility::Impossible
            } else if x == TypespaceTrait::Default && compat {
                Feasibility::Impossible
            } else if x == TypespaceTrait::Default && t.common.default.is_some() {
                Feasibility::ManuallyRealizable(Vec::new())
            } else {
                Feasibility::Derivable
            }
        },
        Type::UnitStruct(_) => {
            if x == TypespaceTrait::Display || x == TypespaceTrait::FromStr {
                Feasibility::Impossible
            } else if x == TypespaceTrait::Default && compat {
                Feasibility::Impossible
            } else {
                Feasibility::Derivable
            }
        },
        Type::NewtypeStruct(n) => {
            if x == TypespaceTrait::Display {
                Feasibility::ManuallyRealizable(vec![ContainedChild::required(Relation::Inner, n.inner)])
            } else if x == TypespaceTrait::FromStr {
                if matches!(n.constraints, NewtypeConstraints::Unconstrained) {
                    Feasibility::ManuallyRealizable(vec![ContainedChild::required(Relation::Inner, n.inner)])
                } else {
                    Feasibility::ManuallyRealizable(Vec::new())
                }
            } else if x == TypespaceTrait::Default && (compat || n.common.default.is_some()) {
                Feasibility::Impossible
            } else {
                Feasibility::Derivable
            }
        },
        Type::Enum(e) => {
            if x == TypespaceTrait::FromStr && e.from_str_refusal.is_some() {
                Feasibility::Impossible
            } else if x == TypespaceTrait::Display || x == TypespaceTrait::FromStr {
                if e.all_tagged_unit_variants() {
                    Feasibility::ManuallyRealizable(Vec::new())
                } else if e.all_untagged_item_variants() {
                    Feasibility::ManuallyRealizable(ty.contained_children_related())
                } else {
                    Feasibility::Impossible
                }
            } else if x == TypespaceTrait::Default {
                if e.common.default.is_some() {
                    Feasibility::ManuallyRealizable(Vec::new())
                } else {
                    Feasibility::Impossible
                }
            } else {
                Feasibility::Derivable
            }
        },
        _ => Feasibility::Forward,
    }
}

/// A type ID and one trait: the unit in which requirements travel.
pub type Pair = (u64, TypespaceTrait);

/// Whether type `t` of `m` cannot have trait `x` on its own account,
/// whatever the types it is built from have: a named type whose kind rules
/// the trait out, a native or configured container that never provides
/// it, a container of the fixed kinds (option, box, array, tuple) or the
/// unit type or `Never` asked for `Display` or `FromStr`, a float asked
/// for `Ord`, `Eq`, or `Hash`, or a JSON value asked for an ordering.
pub open spec fn local_conflict(m: Map<u64, Type>, s: Settings, t: u64, x: TypespaceTrait) -> bool {
    m.contains_key(t) && conflict_at(m[t], s, x)
}

/// Whether a type of this shape cannot have `x` on its own account.
pub open spec fn conflict_at(ty: Type, s: Settings, x: TypespaceTrait) -> bool {
    match ty {
        Type::Native(n) => n.provision_of(x) is Never,
        Type::Option(_) | Type::Box(_) | Type::Array(_, _) | Type::Tuple(_) | Type::Unit | Type::Never => display_like(x),
        Type::Vec(_) => s.vec_type.provision_of(x) is Never,
        Type::MapOf(_, _) => s.map_type.provision_of(x) is Never,
        Type::SetOf(_) => s.set_type.provision_of(x) is Never,
        Type::Float(_) => x == TypespaceTrait::Ord || x == TypespaceTrait::Eq || x == TypespaceTrait::Hash,
        Type::JsonValue => x == TypespaceTrait::Ord || x == TypespaceTrait::PartialOrd,
        Type::Integer(_) | Type::Boolean | Type::String => false,
        _ => feas_impossible(ty, x, s.typify_compat),
    }
}

/// Requiring `x` of type `t` requires `y` of type `c`: a named type passes
/// a trait it can have to the types its realization needs; a container of
/// fixed kind passes what it can provide to its contents (an option
/// provides `Default` on its own); a configured container or a native
/// passes a trait it provides only when its parameters do, with the
/// trait's supertraits, to each parameter.
pub open spec fn req_step(m: Map<u64, Type>, s: Settings, t: u64, x: TypespaceTrait, c: u64, y: TypespaceTrait) -> bool {
    m.contains_key(t) && step_at(m[t], s, x, c, y)
}

/// Requiring `x` of a type of this shape requires `y` of type `c`.
pub open spec fn step_at(ty: Type, s: Settings, x: TypespaceTrait, c: u64, y: TypespaceTrait) -> bool {
    match ty {
        Type::Native(n) => n.provision_of(x) is IfParameters && n.parameters@.contains(c) && close_one(x).contains(y),
        Type::Option(e) => !display_like(x) && x != TypespaceTrait::Default && c == e && y == x,
        Type::Box(e) => !display_like(x) && c == e && y == x,
        Type::Array(e, _) => !display_like(x) && c == e && y == x,
        Type::Tuple(items) => !display_like(x) && items@.contains(c) && y == x,
        Type::Vec(e) => s.vec_type.provision_of(x) is IfParameters && c == e && close_one(x).contains(y),
        Type::MapOf(k, v) => s.map_type.provision_of(x) is IfParameters && (c == k || c == v) && close_one(x).contains(y),
        Type::SetOf(e) => s.set_type.provision_of(x) is IfParameters && c == e && close_one(x).contains(y),
        Type::Unit | Type::Boolean | Type::Integer(_) | Type::Float(_) | Type::String | Type::JsonValue | Type::Never => false,
        _ => !feas_impossible(ty, x, s.typify_compat) && y == x && feas_targets(ty, x, s.typify_compat).contains(c),
    }
}

/// What a container or native type demands of its parameters: `y` of `c`.
pub open spec fn container_seed(ty: Type, s: Settings, c: u64, y: TypespaceTrait) -> bool {
    match ty {
        Type::MapOf(k, v) => (c == k && spec_close(s.map_type.obligations_of()[0]@).contains(y)) || (c == v && spec_close(
            s.map_type.obligations_of()[1]@,
        ).contains(y)),
        Type::SetOf(e) => c == e && spec_close(s.set_type.obligations_of()[0]@).contains(y),
        Type::Vec(e) => c == e && spec_close(s.vec_type.obligations_of()[0]@).contains(y),
        Type::Native(n) => exists|i: int|
            0 <= i < n.parameters@.len() && n.parameters@[i] == c && spec_close(
                (#[trigger] n.obligations_of()[i])@,
            ).contains(y),
        _ => false,
    }
}

/// A property of `ty` in the `Default` state has type `c`: serde fills it
/// from `Default::default()`.
pub open spec fn default_seed(ty: Type, c: u64) -> bool {
    match ty {
        Type::Struct(st) => exists|i: int|
            0 <= i < st.properties@.len() && (#[trigger] st.properties@[i]).state is Default
                && st.properties@[i].type_id == c,
        Type::Enum(e) => exists|i: int| 0 <= i < e.variants@.len() && props_default_seed(#[trigger] e.variants@[i].details, c),
        _ => false,
    }
}

/// A struct-shaped variant has a property of type `c` in the `Default`
/// state.
pub open spec fn props_default_seed(d: VariantDetails, c: u64) -> bool {
    match d {
        VariantDetails::Struct(props) => exists|j: int|
            0 <= j < props@.len() && (#[trigger] props@[j]).state is Default && props@[j].type_id == c,
        _ => false,
    }
}

/// The requirements the graph starts from, seeded at type `t`: what
/// containers and natives demand of their parameters, `Default` of every
/// property type serde defaults, and the settings' required traits of
/// every named type.
pub open spec fn seed_at(m: Map<u64, Type>, s: Settings, t: u64, c: u64, y: TypespaceTrait) -> bool {
    m.contains_key(t) && (container_seed(m[t], s, c, y) || (y == TypespaceTrait::Default && default_seed(m[t], c)) || (
    m[t].spec_is_named() && c == t && spec_close(s.required_traits@).contains(y)))
}

/// A set of pairs holding every seed and every successor of its members.
pub open spec fn req_closed(m: Map<u64, Type>, s: Settings, set: Set<Pair>) -> bool {
    &&& forall|t: u64, c: u64, y: TypespaceTrait| #[trigger] seed_at(m, s, t, c, y) ==> set.contains((c, y))
    &&& forall|t: u64, x: TypespaceTrait, c: u64, y: TypespaceTrait|
        set.contains((t, x)) && #[trigger] req_step(m, s, t, x, c, y) ==> set.contains((c, y))
}

/// `y` is required of type `c`: the pair belongs to every set holding the
/// seeds and closed under requirement steps.
pub open spec fn reached(m: Map<u64, Type>, s: Settings, c: u64, y: TypespaceTrait) -> bool {
    forall|set: Set<Pair>| #[trigger] req_closed(m, s, set) ==> set.contains((c, y))
}

/// The traits required resolution grants named type `t`: those required
/// of it that it can have.
pub open spec fn granted(m: Map<u64, Type>, s: Settings, t: u64) -> Set<TypespaceTrait> {
    Set::new(|x: TypespaceTrait| reached(m, s, t, x) && !local_conflict(m, s, t, x))
}

/// Every requirement can be met: no reached pair is a local conflict.
pub open spec fn requirements_met(m: Map<u64, Type>, s: Settings) -> bool {
    forall|t: u64, x: TypespaceTrait| #[trigger] reached(m, s, t, x) ==> !local_conflict(m, s, t, x)
}

pub proof fn lemma_seed_reached(m: Map<u64, Type>, s: Settings, t: u64, c: u64, y: TypespaceTrait)
    requires
        seed_at(m, s, t, c, y),
    ensures
        reached(m, s, c, y),
{
    assert forall|set: Set<Pair>| #[trigger] req_closed(m, s, set) implies set.contains((c, y)) by {}
}

pub proof fn lemma_step_reached(m: Map<u64, Type>, s: Settings, t: u64, x: TypespaceTrait, c: u64, y: TypespaceTrait)
    requires
        reached(m, s, t, x),
        req_step(m, s, t, x, c, y),
    ensures
        reached(m, s, c, y),
{
    assert forall|set: Set<Pair>| #[trigger] req_closed(m, s, set) implies set.contains((c, y)) by {
        assert(set.contains((t, x)));
    }
}

/// A closed set holds every reached pair.
pub proof fn lemma_closed_holds_reached(m: Map<u64, Type>, s: Settings, set: Set<Pair>, c: u64, y: TypespaceTrait)
    requires
        req_closed(m, s, set),
        reached(m, s, c, y),
    ensures
        set.contains((c, y)),
{
}

/// A pending trait requirement: `traits` are required of `target`,
/// tracing back to `origin` along the hops in `path`.
pub struct WorkItem {
    pub target: u64,
    pub traits: TypespaceTraitSet,
    pub origin: RequirementOrigin,
    pub path: Vec<PathStep>,
}

/// Some item of the queue requires `y` of `c`.
pub open spec fn pending(q: Seq<WorkItem>, c: u64, y: TypespaceTrait) -> bool {
    exists|i: int| 0 <= i < q.len() && q[i].target == c && #[trigger] q[i].traits@.contains(y)
}

/// Every item of the queue targets a type of `m`, and every pair it holds
/// is reached.
pub open spec fn items_reached(m: Map<u64, Type>, s: Settings, q: Seq<WorkItem>) -> bool {
    &&& forall|i: int| 0 <= i < q.len() ==> m.contains_key(#[trigger] q[i].target)
    &&& forall|i: int, y: TypespaceTrait|
        0 <= i < q.len() && #[trigger] q[i].traits@.contains(y) ==> reached(m, s, q[i].target, y)
}

/// A requirement on a type of shape `ty` passes to `c` along `rel`: for
/// a named type, `c` is a contained child labeled `rel`; for any other,
/// `c` is a child at a position whose relation is `rel`.
pub open spec fn ty_hop(ty: Type, rel: Relation, c: u64) -> bool {
    if ty.spec_is_named() {
        exists|k: int|
            0 <= k < spec_contained_related(ty).len() && (#[trigger] spec_contained_related(ty)[k]).relation == rel
                && spec_contained_related(ty)[k].id == c
    } else {
        exists|k: int|
            0 <= k < ty.spec_children().len() && #[trigger] ty.spec_children()[k] == c && anon_child_relation(ty, k as usize)
                == rel
    }
}

/// Type `t` of `m` passes a requirement to `c` along `rel`.
pub open spec fn hop_ok(m: Map<u64, Type>, t: u64, rel: Relation, c: u64) -> bool {
    m.contains_key(t) && ty_hop(m[t], rel, c)
}

/// The type a hop of `path` leads to: the next hop's type, or `target`
/// after the last. At `-1`, the type the path starts from.
pub open spec fn next_node(path: Seq<PathStep>, target: u64, i: int) -> u64 {
    if i + 1 < path.len() {
        path[i + 1].type_id
    } else {
        target
    }
}

/// Every hop of `path` from `from` on is one `m` takes.
pub open spec fn hops_ok(m: Map<u64, Type>, path: Seq<PathStep>, target: u64, from: int) -> bool {
    forall|i: int| from <= i < path.len() ==> #[trigger] hop_ok(m, path[i].type_id, path[i].relation, next_node(path, target, i))
}

/// Property `p` of `props` is defaulted by serde, is named `rel`, and has
/// type `c`.
pub open spec fn default_prop_in(props: Seq<StructProperty>, rel: Relation, c: u64) -> bool {
    exists|j: int|
        0 <= j < props.len() && (#[trigger] props[j]).state is Default && props[j].type_id == c && rel == Relation::Field(
            props[j].rust_name,
        )
}

/// A property of type `ty` (its own, or one of its struct-shaped
/// variants') is defaulted by serde, is named by `rel`, and has type `c`.
pub open spec fn default_hop(ty: Type, rel: Relation, c: u64) -> bool {
    match ty {
        Type::Struct(st) => default_prop_in(st.properties@, rel, c),
        Type::Enum(e) => exists|k: int|
            0 <= k < e.variants@.len() && (match (#[trigger] e.variants@[k]).details {
                VariantDetails::Struct(props) => default_prop_in(props@, rel, c),
                _ => false,
            }),
        _ => false,
    }
}

/// A requirement with this origin could travel `path` to `target` in
/// `m` under settings `s`: a container's or native's demand on the child
/// at `relation`, a serde default on a property of a type, or the
/// settings' required traits on a named type; then one real hop of the
/// graph after another.
pub open spec fn provenance(m: Map<u64, Type>, s: Settings, origin: RequirementOrigin, path: Seq<PathStep>, target: u64) -> bool {
    match origin {
        RequirementOrigin::ContainerParameter { container, relation } => hop_ok(
            m,
            container,
            relation,
            next_node(path, target, -1),
        ) && hops_ok(m, path, target, 0),
        RequirementOrigin::PropertyDefault(t) => path.len() > 0 && path[0].type_id == t && m.contains_key(t) && default_hop(
            m[t],
            path[0].relation,
            next_node(path, target, 0),
        ) && hops_ok(m, path, target, 1),
        RequirementOrigin::DefaultValue(_) => false,
        RequirementOrigin::GlobalSettings => spec_close(s.required_traits@) != Set::<TypespaceTrait>::empty() && m.contains_key(
            next_node(path, target, -1),
        ) && m[next_node(path, target, -1)].spec_is_named() && hops_ok(m, path, target, 0),
    }
}

/// Every item of the queue has a provenance.
pub open spec fn items_traced(m: Map<u64, Type>, s: Settings, q: Seq<WorkItem>) -> bool {
    forall|i: int| 0 <= i < q.len() ==> provenance(m, s, (#[trigger] q[i]).origin, q[i].path@, q[i].target)
}

/// The items of `q` from `start` on carry `item`'s origin and its path
/// extended by one hop from its target that a type of shape `ty` takes.
pub open spec fn items_hop(q: Seq<WorkItem>, start: int, ty: Type, item: WorkItem) -> bool {
    forall|i: int|
        start <= i < q.len() ==> (#[trigger] q[i]).origin == item.origin && q[i].path@.len() == item.path@.len() + 1
            && q[i].path@.drop_last() == item.path@ && q[i].path@.last().type_id == item.target && ty_hop(
            ty,
            q[i].path@.last().relation,
            q[i].target,
        )
}

/// The conflicts of `cs` from `start` on carry `item`'s origin and path.
pub open spec fn conflicts_from(cs: Seq<TraitConflict>, start: int, item: WorkItem) -> bool {
    forall|k: int| start <= k < cs.len() ==> (#[trigger] cs[k]).origin == item.origin && cs[k].path@ == item.path@
}

/// Types agreeing but for what finalization computed label their
/// contained children alike.
proof fn lemma_related_kept(a: Type, b: Type)
    requires
        a.agrees_except_computed(b),
    ensures
        spec_contained_related(a) == spec_contained_related(b),
{
    match (a, b) {
        (Type::Enum(x), Type::Enum(y)) => {
            assert(x.variants == y.variants);
        },
        (Type::Struct(x), Type::Struct(y)) => {
            assert(x.properties == y.properties);
        },
        (Type::TupleStruct(x), Type::TupleStruct(y)) => {
            assert(x.fields == y.fields && x.rest == y.rest);
        },
        _ => {},
    }
}

/// Each child a struct's hand-written `Default` obligates is one of its
/// properties, reached by its field.
proof fn lemma_default_children_related(props: Seq<StructProperty>, d: Option<JsonValue>, j: int)
    requires
        0 <= j < default_obligation_children(props, d).len(),
    ensures
        exists|i: int|
            0 <= i < props.len() && default_obligation_children(props, d)[j].relation == Relation::Field(props[i].rust_name)
                && default_obligation_children(props, d)[j].id == props[i].type_id,
    decreases props.len(),
{
    let prev = default_obligation_children(props.drop_last(), d);
    if j < prev.len() {
        lemma_default_children_related(props.drop_last(), d, j);
        let i = choose|i: int|
            0 <= i < props.drop_last().len() && prev[j].relation == Relation::Field(props.drop_last()[i].rust_name)
                && prev[j].id == props.drop_last()[i].type_id;
        assert(props.drop_last()[i] == props[i]);
        assert(default_obligation_children(props, d)[j] == prev[j]);
    } else {
        assert(default_obligation_children(props, d)[j].relation == Relation::Field(props[props.len() - 1].rust_name));
    }
}

/// Each child a manual impl obligates is a hop the named type takes.
proof fn lemma_manual_hops(ty: Type, x: TypespaceTrait, j: int)
    requires
        ty.spec_is_named(),
        0 <= j < manual_children(ty, x).len(),
    ensures
        ty_hop(ty, manual_children(ty, x)[j].relation, manual_children(ty, x)[j].id),
{
    let mc = manual_children(ty, x);
    let rel = spec_contained_related(ty);
    match ty {
        Type::Struct(st) => {
            lemma_default_children_related(st.properties@, st.common.default, j);
            let i = choose|i: int|
                0 <= i < st.properties@.len() && mc[j].relation == Relation::Field(st.properties@[i].rust_name)
                    && mc[j].id == st.properties@[i].type_id;
            assert(rel[i].relation == Relation::Field(st.properties@[i].rust_name));
            assert(rel[i].id == st.properties@[i].type_id);
        },
        Type::NewtypeStruct(n) => {
            assert(rel[0].relation == mc[j].relation && rel[0].id == mc[j].id);
        },
        Type::Enum(e) => {
            assert(rel[j] == mc[j]);
        },
        _ => {},
    }
}

/// Every queued item and every recorded conflict has a provenance in
/// `m`.
pub open spec fn traced_inv(m: Map<u64, Type>, s: Settings, q: Seq<WorkItem>, cs: Seq<TraitConflict>) -> bool {
    &&& items_traced(m, s, q)
    &&& forall|i: int| 0 <= i < cs.len() ==> provenance(m, s, (#[trigger] cs[i]).origin, cs[i].path@, cs[i].offender)
}

/// Types agreeing but for their recorded traits take the same hops.
proof fn lemma_ty_hop_kept(a: Type, b: Type, s: Settings)
    requires
        a.agrees_except_built(b),
    ensures
        forall|rel: Relation, c: u64| ty_hop(a, rel, c) == ty_hop(b, rel, c),
{
    lemma_agree_step(a, b, s);
    lemma_related_kept(a, b);
}

/// Processing the front item keeps every item and conflict traced.
proof fn lemma_traced_after(
    m0: Map<u64, Type>,
    s: Settings,
    m: Map<u64, Type>,
    q: Seq<WorkItem>,
    q1: Seq<WorkItem>,
    cs: Seq<TraitConflict>,
    cs1: Seq<TraitConflict>,
)
    requires
        traced_inv(m0, s, q, cs),
        q.len() > 0,
        m.contains_key(q[0].target),
        m0.contains_key(q[0].target),
        m[q[0].target].agrees_except_built(m0[q[0].target]),
        q1.len() >= q.len() - 1,
        q1.subrange(0, q.len() - 1) == q.drop_first(),
        items_hop(q1, q.len() - 1, m[q[0].target], q[0]),
        cs1.len() >= cs.len(),
        cs1.subrange(0, cs.len() as int) == cs,
        conflicts_from(cs1, cs.len() as int, q[0]),
        forall|k: int| cs.len() <= k < cs1.len() ==> (#[trigger] cs1[k]).offender == q[0].target,
    ensures
        traced_inv(m0, s, q1, cs1),
{
    let item = q[0];
    let t = item.target;
    lemma_ty_hop_kept(m[t], m0[t], s);
    assert(provenance(m0, s, q[0].origin, q[0].path@, q[0].target));
    assert forall|i: int| 0 <= i < q1.len() implies provenance(m0, s, (#[trigger] q1[i]).origin, q1[i].path@, q1[i].target) by {
        if i < q.len() - 1 {
            assert(q1.subrange(0, q.len() - 1)[i] == q1[i]);
            assert(q.drop_first()[i] == q[i + 1]);
            assert(provenance(m0, s, q[i + 1].origin, q[i + 1].path@, q[i + 1].target));
        } else {
            let p = q1[i].path@;
            let rel = p.last().relation;
            assert(ty_hop(m[t], rel, q1[i].target));
            assert(hop_ok(m0, t, rel, q1[i].target));
            lemma_provenance_extend(m0, s, item.origin, item.path@, t, rel, q1[i].target);
            assert(p =~= item.path@.push(PathStep { type_id: t, relation: rel }));
        }
    }
    assert forall|i: int| 0 <= i < cs1.len() implies provenance(m0, s, (#[trigger] cs1[i]).origin, cs1[i].path@, cs1[i].offender) by {
        if i < cs.len() {
            assert(cs1.subrange(0, cs.len() as int)[i] == cs1[i]);
            assert(provenance(m0, s, cs[i].origin, cs[i].path@, cs[i].offender));
        }
    }
}

/// A provenance extends by a hop from its target.
pub proof fn lemma_provenance_extend(
    m: Map<u64, Type>,
    s: Settings,
    origin: RequirementOrigin,
    path: Seq<PathStep>,
    target: u64,
    rel: Relation,
    c: u64,
)
    requires
        provenance(m, s, origin, path, target),
        hop_ok(m, target, rel, c),
    ensures
        provenance(m, s, origin, path.push(PathStep { type_id: target, relation: rel }), c),
{
    let p2 = path.push(PathStep { type_id: target, relation: rel });
    assert(next_node(p2, c, -1) == next_node(path, target, -1));
    assert(next_node(p2, c, 0) == next_node(path, target, 0) || path.len() == 0);
    assert forall|i: int| 0 <= i < p2.len() && hop_ok(m, path[i].type_id, path[i].relation, next_node(path, target, i))
        ==> #[trigger] hop_ok(m, p2[i].type_id, p2[i].relation, next_node(p2, c, i)) by {
        if 0 <= i < path.len() {
            assert(p2[i] == path[i]);
        }
    }
    assert(hop_ok(m, p2[path.len() as int].type_id, p2[path.len() as int].relation, next_node(p2, c, path.len() as int)));
}

proof fn lemma_pending_push(q: Seq<WorkItem>, w: WorkItem, c: u64, y: TypespaceTrait)
    ensures
        pending(q, c, y) ==> pending(q.push(w), c, y),
        w.target == c && w.traits@.contains(y) ==> pending(q.push(w), c, y),
{
    if pending(q, c, y) {
        let i = choose|i: int| 0 <= i < q.len() && q[i].target == c && #[trigger] q[i].traits@.contains(y);
        assert(q.push(w)[i] == q[i]);
    }
    if w.target == c && w.traits@.contains(y) {
        assert(q.push(w)[q.len() as int] == w);
    }
}

/// The rank of `t`, or zero for a type without one.
pub open spec fn rank_of(rank: Map<u64, nat>, t: u64) -> nat {
    if rank.contains_key(t) {
        rank[t]
    } else {
        0
    }
}

/// What processing a requirement on `t` can cost: one for a named type,
/// and for an anonymous one itself plus what its children cost (which
/// falls along a ranking of the anonymous types).
pub open spec fn weight(m: Map<u64, Type>, rank: Map<u64, nat>, t: u64) -> nat
    decreases 2 * rank_of(rank, t) + 1, 0nat,
{
    if !m.contains_key(t) || m[t].spec_is_named() {
        1
    } else {
        1 + sum_weights(m, rank, m[t].spec_children(), rank_of(rank, t))
    }
}

/// The weights of `kids` whose rank is below `limit` (named types and
/// types outside `m` weigh one).
pub open spec fn sum_weights(m: Map<u64, Type>, rank: Map<u64, nat>, kids: Seq<u64>, limit: nat) -> nat
    decreases 2 * limit, kids.len(),
{
    if kids.len() == 0 {
        0
    } else {
        let c = kids.last();
        sum_weights(m, rank, kids.drop_last(), limit) + if !m.contains_key(c) || m[c].spec_is_named() {
            1
        } else if rank_of(rank, c) < limit {
            weight(m, rank, c)
        } else {
            0
        }
    }
}

/// The weight of every target in a queue.
pub open spec fn queue_weight(m: Map<u64, Type>, rank: Map<u64, nat>, q: Seq<WorkItem>) -> nat
    decreases q.len(),
{
    if q.len() == 0 {
        0
    } else {
        queue_weight(m, rank, q.drop_last()) + weight(m, rank, q.last().target)
    }
}

/// The weight of every ID in a list.
pub open spec fn list_weight(m: Map<u64, Type>, rank: Map<u64, nat>, kids: Seq<u64>) -> nat
    decreases kids.len(),
{
    if kids.len() == 0 {
        0
    } else {
        list_weight(m, rank, kids.drop_last()) + weight(m, rank, kids.last())
    }
}

proof fn lemma_queue_weight_front(m: Map<u64, Type>, rank: Map<u64, nat>, q: Seq<WorkItem>)
    requires
        q.len() > 0,
    ensures
        queue_weight(m, rank, q) == weight(m, rank, q[0].target) + queue_weight(m, rank, q.drop_first()),
    decreases q.len(),
{
    if q.len() > 1 {
        lemma_queue_weight_front(m, rank, q.drop_last());
        assert(q.drop_last().drop_first() == q.drop_first().drop_last());
        assert(q.drop_first().last() == q.last());
        assert(q.drop_last()[0] == q[0]);
    } else {
        assert(q.drop_first().len() == 0);
        assert(q.drop_last().len() == 0);
        assert(queue_weight(m, rank, q.drop_last()) == 0);
        assert(queue_weight(m, rank, q.drop_first()) == 0);
        assert(q.last() == q[0]);
    }
}

/// For an anonymous type, its children weigh one less than it does.
proof fn lemma_weight_children(m: Map<u64, Type>, rank: Map<u64, nat>, t: u64, kids: Seq<u64>)
    requires
        m.contains_key(t),
        !m[t].spec_is_named(),
        anon_ranked(m, rank),
        forall|c: u64| #[trigger] kids.contains(c) ==> m[t].spec_children().contains(c),
    ensures
        sum_weights(m, rank, kids, rank_of(rank, t)) == list_weight(m, rank, kids),
    decreases kids.len(),
{
    if kids.len() > 0 {
        let c = kids.last();
        assert(kids.contains(c));
        assert forall|d: u64| #[trigger] kids.drop_last().contains(d) implies m[t].spec_children().contains(d) by {
            let k = choose|k: int| 0 <= k < kids.drop_last().len() && kids.drop_last()[k] == d;
            assert(kids[k] == d);
            assert(kids.contains(d));
        }
        lemma_weight_children(m, rank, t, kids.drop_last());
        if m.contains_key(c) && !m[c].spec_is_named() {
            assert(anon_edge(m, t, c));
        }
    }
}

/// An anonymous type weighs one more than its children.
proof fn lemma_weight_unfold(m: Map<u64, Type>, rank: Map<u64, nat>, t: u64)
    requires
        m.contains_key(t),
        !m[t].spec_is_named(),
        anon_ranked(m, rank),
    ensures
        weight(m, rank, t) == 1 + list_weight(m, rank, m[t].spec_children()),
{
    lemma_weight_children(m, rank, t, m[t].spec_children());
}

proof fn lemma_pending_prefix(q: Seq<WorkItem>, q2: Seq<WorkItem>)
    requires
        q.len() <= q2.len(),
        q2.subrange(0, q.len() as int) == q,
    ensures
        forall|c: u64, y: TypespaceTrait| pending(q, c, y) ==> pending(q2, c, y),
{
    assert forall|c: u64, y: TypespaceTrait| pending(q, c, y) implies pending(q2, c, y) by {
        let i = choose|i: int| 0 <= i < q.len() && q[i].target == c && #[trigger] q[i].traits@.contains(y);
        assert(q2.subrange(0, q.len() as int)[i] == q2[i]);
    }
}

/// The settings' containers declare an obligation for every type
/// parameter the position they render supplies.
pub open spec fn containers_ok(s: Settings) -> bool {
    &&& s.map_type.obligations_of().len() == 2
    &&& s.set_type.obligations_of().len() == 1
    &&& s.vec_type.obligations_of().len() == 1
}

/// Every native type declares an obligation for each of its parameters.
pub open spec fn natives_ok(m: Map<u64, Type>) -> bool {
    forall|t: u64| #[trigger] m.contains_key(t) && m[t] is Native ==> m[t]->Native_0.well_formed()
}

fn push_item(work: &mut VecDeque<WorkItem>, target: u64, traits: TypespaceTraitSet, origin: RequirementOrigin, path: Vec<PathStep>)
    ensures
        final(work)@ == old(work)@.push(WorkItem { target, traits, origin, path }),
{
    work.push_back(WorkItem { target, traits, origin, path });
}

/// Queue what container or native type `t` demands of its parameters.
fn container_seeds(work: &mut VecDeque<WorkItem>, t: u64, ty: &Type, settings: &Settings)
    requires
        containers_ok(*settings),
        ty is Native ==> ty->Native_0.well_formed(),
    ensures
        final(work)@.len() >= old(work)@.len(),
        final(work)@.subrange(0, old(work)@.len() as int) == old(work)@,
        forall|c: u64, y: TypespaceTrait| #[trigger] container_seed(*ty, *settings, c, y) ==> pending(final(work)@, c, y),
        forall|i: int| old(work)@.len() <= i < final(work)@.len() ==> ty.spec_children().contains(#[trigger] final(work)@[i].target),
        forall|i: int, y: TypespaceTrait|
            old(work)@.len() <= i < final(work)@.len() && #[trigger] final(work)@[i].traits@.contains(y) ==> container_seed(
                *ty,
                *settings,
                final(work)@[i].target,
                y,
            ),
        forall|i: int| old(work)@.len() <= i < final(work)@.len() ==> (#[trigger] final(work)@[i]).path@.len() == 0
            && (match final(work)@[i].origin {
                RequirementOrigin::ContainerParameter { container, relation } => container == t && ty_hop(*ty, relation, final(work)@[i].target),
                _ => false,
            }),
{
    let ghost q0 = work@;
    match ty {
        Type::MapOf(k, v) => {
            let key_traits = close_supertraits(*settings.map_type.obligation(0));
            let value_traits = close_supertraits(*settings.map_type.obligation(1));
            push_item(work, *k, key_traits, RequirementOrigin::ContainerParameter { container: t, relation: Relation::Key }, Vec::new());
            push_item(work, *v, value_traits, RequirementOrigin::ContainerParameter { container: t, relation: Relation::Value }, Vec::new());
            proof {
                let q1 = q0.push(work@[q0.len() as int]);
                assert(work@ == q1.push(work@[q0.len() as int + 1]));
                assert forall|i: int| q0.len() <= i < work@.len() implies ty.spec_children().contains(#[trigger] work@[i].target) by {
                    if i == q0.len() {
                        assert(ty.spec_children()[0] == work@[i].target);
                    } else {
                        assert(ty.spec_children()[1] == work@[i].target);
                    }
                }
                assert forall|c: u64, y: TypespaceTrait| #[trigger] container_seed(*ty, *settings, c, y) implies pending(work@, c, y) by {
                    lemma_pending_push(q0, work@[q0.len() as int], c, y);
                    lemma_pending_push(q1, work@[q0.len() as int + 1], c, y);
                }
                assert(ty.spec_children()[0] == *k && anon_child_relation(*ty, 0usize) == Relation::Key);
                assert(ty.spec_children()[1] == *v && anon_child_relation(*ty, 1usize) == Relation::Value);
            }
        },
        Type::SetOf(e) => {
            let traits = close_supertraits(*settings.set_type.obligation(0));
            push_item(work, *e, traits, RequirementOrigin::ContainerParameter { container: t, relation: Relation::Element }, Vec::new());
            proof {
                assert(ty.spec_children()[0] == work@[q0.len() as int].target);
                assert(anon_child_relation(*ty, 0usize) == Relation::Element);
                assert forall|c: u64, y: TypespaceTrait| #[trigger] container_seed(*ty, *settings, c, y) implies pending(work@, c, y) by {
                    lemma_pending_push(q0, work@[q0.len() as int], c, y);
                }
            }
        },
        Type::Vec(e) => {
            let traits = close_supertraits(*settings.vec_type.obligation(0));
            push_item(work, *e, traits, RequirementOrigin::ContainerParameter { container: t, relation: Relation::Element }, Vec::new());
            proof {
                assert(ty.spec_children()[0] == work@[q0.len() as int].target);
                assert(anon_child_relation(*ty, 0usize) == Relation::Element);
                assert forall|c: u64, y: TypespaceTrait| #[trigger] container_seed(*ty, *settings, c, y) implies pending(work@, c, y) by {
                    lemma_pending_push(q0, work@[q0.len() as int], c, y);
                }
            }
        },
        Type::Native(n) => {
            let params = n.parameters();
            let obligations = n.obligations();
            let mut j: usize = 0;
            while j < params.len()
                invariant
                    params@ == n.parameters@,
                    obligations@ == n.obligations_of(),
                    obligations@.len() == params@.len(),
                    *ty == Type::Native(*n),
                    j <= params@.len(),
                    work@.len() >= q0.len(),
                    work@.subrange(0, q0.len() as int) == q0,
                    work@.len() == q0.len() + j,
                    forall|i: int| 0 <= i < j ==> (#[trigger] work@[q0.len() + i]).target == params@[i]
                        && work@[q0.len() + i].traits@ == spec_close(obligations@[i]@)
                        && work@[q0.len() + i].path@.len() == 0
                        && work@[q0.len() + i].origin == (RequirementOrigin::ContainerParameter { container: t, relation: Relation::Parameter(i as usize) }),
                decreases params@.len() - j,
            {
                let traits = close_supertraits(obligations[j]);
                let ghost before = work@;
                push_item(work, params[j], traits, RequirementOrigin::ContainerParameter { container: t, relation: Relation::Parameter(j) }, Vec::new());
                proof {
                    assert(work@.subrange(0, q0.len() as int) == before.subrange(0, q0.len() as int));
                    assert forall|i: int| 0 <= i < j + 1 implies (#[trigger] work@[q0.len() + i]).target == params@[i]
                        && work@[q0.len() + i].traits@ == spec_close(obligations@[i]@)
                        && work@[q0.len() + i].path@.len() == 0
                        && work@[q0.len() + i].origin == (RequirementOrigin::ContainerParameter { container: t, relation: Relation::Parameter(i as usize) }) by {
                        if i < j {
                            assert(work@[q0.len() + i] == before[q0.len() + i]);
                        }
                    }
                }
                j = j + 1;
            }
            proof {
                assert forall|c: u64, y: TypespaceTrait| #[trigger] container_seed(*ty, *settings, c, y) implies pending(work@, c, y) by {
                    let i = choose|i: int|
                        0 <= i < n.parameters@.len() && n.parameters@[i] == c && spec_close((#[trigger] n.obligations_of()[i])@).contains(y);
                    assert(work@[q0.len() + i].target == c);
                    assert(work@[q0.len() + i].traits@.contains(y));
                }
                assert forall|i: int| q0.len() <= i < work@.len() implies ty.spec_children().contains(#[trigger] work@[i].target) by {
                    let k = i - q0.len();
                    assert(work@[q0.len() + k].target == params@[k]);
                }
                assert forall|i: int| q0.len() <= i < work@.len() implies (#[trigger] work@[i]).path@.len() == 0
                    && (match work@[i].origin {
                        RequirementOrigin::ContainerParameter { container, relation } => container == t && ty_hop(*ty, relation, work@[i].target),
                        _ => false,
                    }) by {
                    let k = i - q0.len();
                    assert(work@[q0.len() + k] == work@[i]);
                    assert(ty.spec_children()[k] == params@[k]);
                    assert(anon_child_relation(*ty, k as usize) == Relation::Parameter(k as usize));
                }
                assert forall|i: int, y: TypespaceTrait|
                    q0.len() <= i < work@.len() && #[trigger] work@[i].traits@.contains(y) implies container_seed(*ty, *settings, work@[i].target, y) by {
                    let k = i - q0.len();
                    assert(work@[q0.len() + k].target == params@[k]);
                    assert(spec_close(n.obligations_of()[k]@).contains(y));
                }
            }
        },
        _ => {},
    }
}

/// The requirement `#[serde(default)]` places on a property's type.
fn default_required() -> (r: TypespaceTraitSet)
    ensures
        r@ == Set::empty().insert(TypespaceTrait::Default),
{
    let mut r = TypespaceTraitSet::empty();
    r.add(TypespaceTrait::Default);
    proof {
        assert(r@ =~= Set::empty().insert(TypespaceTrait::Default));
    }
    r
}

proof fn lemma_property_ids_contains(props: Seq<StructProperty>, j: int)
    requires
        0 <= j < props.len(),
    ensures
        crate::build::property_ids(props).contains(props[j].type_id),
{
    assert(crate::build::property_ids(props)[j] == props[j].type_id);
}

pub(crate) proof fn lemma_variants_ids_contains(vs: Seq<crate::build::enums::EnumVariant>, i: int, c: u64)
    requires
        0 <= i < vs.len(),
        crate::build::variant_ids(vs[i]).contains(c),
    ensures
        crate::build::variants_ids(vs).contains(c),
    decreases vs.len(),
{
    if i == vs.len() - 1 {
        let k = choose|k: int| 0 <= k < crate::build::variant_ids(vs[i]).len() && crate::build::variant_ids(vs[i])[k] == c;
        assert((crate::build::variants_ids(vs.drop_last()) + crate::build::variant_ids(vs.last()))[crate::build::variants_ids(vs.drop_last()).len() + k] == c);
    } else {
        lemma_variants_ids_contains(vs.drop_last(), i, c);
        let k = choose|k: int| 0 <= k < crate::build::variants_ids(vs.drop_last()).len() && crate::build::variants_ids(vs.drop_last())[k] == c;
        assert((crate::build::variants_ids(vs.drop_last()) + crate::build::variant_ids(vs.last()))[k] == c);
    }
}

/// Queue `Default` for each property in the `Default` state of `props`,
/// which belong to type `t`.
fn property_default_seeds(work: &mut VecDeque<WorkItem>, t: u64, props: &Vec<StructProperty>)
    ensures
        final(work)@.len() >= old(work)@.len(),
        final(work)@.subrange(0, old(work)@.len() as int) == old(work)@,
        forall|j: int| 0 <= j < props@.len() && (#[trigger] props@[j]).state is Default ==> pending(final(work)@, props@[j].type_id, TypespaceTrait::Default),
        forall|i: int| old(work)@.len() <= i < final(work)@.len() ==> exists|j: int| 0 <= j < props@.len() && (#[trigger] props@[j]).state is Default
            && props@[j].type_id == (#[trigger] final(work)@[i]).target,
        forall|i: int| old(work)@.len() <= i < final(work)@.len() ==> (#[trigger] final(work)@[i]).traits@ == Set::empty().insert(TypespaceTrait::Default),
        forall|i: int| old(work)@.len() <= i < final(work)@.len() ==> (#[trigger] final(work)@[i]).origin == RequirementOrigin::PropertyDefault(t)
            && final(work)@[i].path@.len() == 1 && final(work)@[i].path@[0].type_id == t
            && default_prop_in(props@, final(work)@[i].path@[0].relation, final(work)@[i].target),
{
    let ghost q0 = work@;
    let mut j: usize = 0;
    while j < props.len()
        invariant
            j <= props@.len(),
            work@.len() >= q0.len(),
            work@.subrange(0, q0.len() as int) == q0,
            forall|k: int| 0 <= k < j && (#[trigger] props@[k]).state is Default ==> pending(work@, props@[k].type_id, TypespaceTrait::Default),
            forall|i: int| q0.len() <= i < work@.len() ==> exists|k: int| 0 <= k < props@.len() && (#[trigger] props@[k]).state is Default
                && props@[k].type_id == (#[trigger] work@[i]).target,
            forall|i: int| q0.len() <= i < work@.len() ==> (#[trigger] work@[i]).traits@ == Set::empty().insert(TypespaceTrait::Default),
            forall|i: int| q0.len() <= i < work@.len() ==> (#[trigger] work@[i]).origin == RequirementOrigin::PropertyDefault(t)
                && work@[i].path@.len() == 1 && work@[i].path@[0].type_id == t
                && default_prop_in(props@, work@[i].path@[0].relation, work@[i].target),
        decreases props@.len() - j,
    {
        if matches!(props[j].state, StructPropertyState::Default) {
            let ghost before = work@;
            let path = vec![PathStep { type_id: t, relation: Relation::Field(props[j].rust_name.clone()) }];
            push_item(work, props[j].type_id, default_required(), RequirementOrigin::PropertyDefault(t), path);
            proof {
                assert(work@.subrange(0, q0.len() as int) == before.subrange(0, q0.len() as int));
                assert forall|k: int| 0 <= k < j + 1 && (#[trigger] props@[k]).state is Default implies pending(work@, props@[k].type_id, TypespaceTrait::Default) by {
                    lemma_pending_push(before, work@[before.len() as int], props@[k].type_id, TypespaceTrait::Default);
                }
                assert forall|i: int| q0.len() <= i < work@.len() implies exists|k: int| 0 <= k < props@.len() && (#[trigger] props@[k]).state is Default
                    && props@[k].type_id == (#[trigger] work@[i]).target by {
                    if i == before.len() {
                        assert(props@[j as int].type_id == work@[i].target);
                    } else {
                        assert(work@[i] == before[i]);
                    }
                }
                assert forall|i: int| q0.len() <= i < work@.len() implies (#[trigger] work@[i]).traits@ == Set::empty().insert(TypespaceTrait::Default) by {
                    if i < before.len() {
                        assert(work@[i] == before[i]);
                    }
                }
                assert forall|i: int| q0.len() <= i < work@.len() implies (#[trigger] work@[i]).origin == RequirementOrigin::PropertyDefault(t)
                    && work@[i].path@.len() == 1 && work@[i].path@[0].type_id == t
                    && default_prop_in(props@, work@[i].path@[0].relation, work@[i].target) by {
                    if i < before.len() {
                        assert(work@[i] == before[i]);
                    } else {
                        assert(work@[i].path@[0].relation == Relation::Field(props@[j as int].rust_name));
                        assert(props@[j as int].type_id == work@[i].target);
                    }
                }
            }
        }
        j = j + 1;
    }
}

/// Queue `Default` for every property type of `ty` (its own properties,
/// or those of its struct-shaped variants) that serde defaults.
fn default_seeds(work: &mut VecDeque<WorkItem>, t: u64, ty: &Type)
    ensures
        final(work)@.len() >= old(work)@.len(),
        final(work)@.subrange(0, old(work)@.len() as int) == old(work)@,
        forall|c: u64| #[trigger] default_seed(*ty, c) ==> pending(final(work)@, c, TypespaceTrait::Default),
        forall|i: int| old(work)@.len() <= i < final(work)@.len() ==> default_seed(*ty, #[trigger] final(work)@[i].target)
            && ty.spec_children().contains(final(work)@[i].target),
        forall|i: int| old(work)@.len() <= i < final(work)@.len() ==> (#[trigger] final(work)@[i]).traits@ == Set::empty().insert(TypespaceTrait::Default),
        forall|i: int| old(work)@.len() <= i < final(work)@.len() ==> (#[trigger] final(work)@[i]).origin == RequirementOrigin::PropertyDefault(t)
            && final(work)@[i].path@.len() == 1 && final(work)@[i].path@[0].type_id == t
            && default_hop(*ty, final(work)@[i].path@[0].relation, final(work)@[i].target),
{
    let ghost q0 = work@;
    match ty {
        Type::Struct(st) => {
            property_default_seeds(work, t, &st.properties);
            proof {
                assert forall|i: int| q0.len() <= i < work@.len() implies default_seed(*ty, #[trigger] work@[i].target)
                    && ty.spec_children().contains(work@[i].target) by {
                    let j = choose|j: int| 0 <= j < st.properties@.len() && (#[trigger] st.properties@[j]).state is Default
                        && st.properties@[j].type_id == work@[i].target;
                    lemma_property_ids_contains(st.properties@, j);
                }
            }
        },
        Type::Enum(e) => {
            let mut i: usize = 0;
            while i < e.variants.len()
                invariant
                    *ty == Type::Enum(*e),
                    i <= e.variants@.len(),
                    work@.len() >= q0.len(),
                    work@.subrange(0, q0.len() as int) == q0,
                    forall|k: int, c: u64| 0 <= k < i && #[trigger] props_default_seed(e.variants@[k].details, c) ==> pending(work@, c, TypespaceTrait::Default),
                    forall|x: int| q0.len() <= x < work@.len() ==> default_seed(*ty, #[trigger] work@[x].target)
                        && ty.spec_children().contains(work@[x].target),
                    forall|x: int| q0.len() <= x < work@.len() ==> (#[trigger] work@[x]).traits@ == Set::empty().insert(TypespaceTrait::Default),
                    forall|x: int| q0.len() <= x < work@.len() ==> (#[trigger] work@[x]).origin == RequirementOrigin::PropertyDefault(t)
                        && work@[x].path@.len() == 1 && work@[x].path@[0].type_id == t
                        && default_hop(*ty, work@[x].path@[0].relation, work@[x].target),
                decreases e.variants@.len() - i,
            {
                let ghost before = work@;
                match &e.variants[i].details {
                    VariantDetails::Struct(props) => {
                        property_default_seeds(work, t, props);
                        proof {
                            lemma_pending_prefix(before, work@);
                            assert(work@.subrange(0, q0.len() as int) == before.subrange(0, q0.len() as int));
                            assert forall|x: int| q0.len() <= x < work@.len() implies default_seed(*ty, #[trigger] work@[x].target)
                                && ty.spec_children().contains(work@[x].target) by {
                                if x >= before.len() {
                                    let j = choose|j: int| 0 <= j < props@.len() && (#[trigger] props@[j]).state is Default
                                        && props@[j].type_id == work@[x].target;
                                    assert(props_default_seed(e.variants@[i as int].details, work@[x].target));
                                    lemma_property_ids_contains(props@, j);
                                    lemma_variants_ids_contains(e.variants@, i as int, work@[x].target);
                                } else {
                                    assert(work@[x] == before[x]);
                                }
                            }
                            assert forall|x: int| q0.len() <= x < work@.len() implies (#[trigger] work@[x]).traits@ == Set::empty().insert(TypespaceTrait::Default) by {
                                if x < before.len() {
                                    assert(work@[x] == before[x]);
                                }
                            }
                            assert forall|x: int| q0.len() <= x < work@.len() implies (#[trigger] work@[x]).origin == RequirementOrigin::PropertyDefault(t)
                                && work@[x].path@.len() == 1 && work@[x].path@[0].type_id == t
                                && default_hop(*ty, work@[x].path@[0].relation, work@[x].target) by {
                                if x < before.len() {
                                    assert(work@[x] == before[x]);
                                } else {
                                    assert(default_prop_in(props@, work@[x].path@[0].relation, work@[x].target));
                                    assert(match e.variants@[i as int].details {
                                        VariantDetails::Struct(ps) => default_prop_in(ps@, work@[x].path@[0].relation, work@[x].target),
                                        _ => false,
                                    });
                                }
                            }
                        }
                    },
                    _ => {},
                }
                i = i + 1;
            }
            proof {
                assert forall|c: u64| #[trigger] default_seed(*ty, c) implies pending(work@, c, TypespaceTrait::Default) by {
                    let k = choose|k: int| 0 <= k < e.variants@.len() && #[trigger] props_default_seed(e.variants@[k].details, c);
                }
            }
        },
        _ => {},
    }
}

/// Queue every requirement the graph starts from: container and native
/// obligations first, then serde defaults, then the settings' required
/// traits, each in type ID order.
fn seed_requirements(types: &BTreeMap<u64, Type>, settings: &Settings) -> (work: VecDeque<WorkItem>)
    requires
        closed(types@),
        containers_ok(*settings),
        natives_ok(types@),
    ensures
        items_reached(types@, *settings, work@),
        items_traced(types@, *settings, work@),
        forall|t: u64, c: u64, y: TypespaceTrait| #[trigger] seed_at(types@, *settings, t, c, y) ==> pending(work@, c, y),
{
    proof {
        lemma_u64_key_order();
    }
    let ghost m = types@;
    let keys = sorted_keys(types);
    let mut work: VecDeque<WorkItem> = VecDeque::new();
    let mut i: usize = 0;
    while i < keys.len()
        invariant
            m == types@,
            closed(m),
            containers_ok(*settings),
            natives_ok(m),
            i <= keys@.len(),
            forall|k: u64| #[trigger] keys@.contains(k) <==> m.contains_key(k),
            items_reached(m, *settings, work@),
            items_traced(m, *settings, work@),
            forall|j: int, c: u64, y: TypespaceTrait| 0 <= j < i && #[trigger] seed_at(m, *settings, keys@[j], c, y) && container_seed(m[keys@[j]], *settings, c, y) ==> pending(work@, c, y),
        decreases keys@.len() - i,
    {
        let t = keys[i];
        proof {
            assert(keys@.contains(t));
        }
        let ty = types.get(&t).unwrap();
        let ghost before = work@;
        container_seeds(&mut work, t, ty, settings);
        proof {
            assert(*ty == m[t]);
            assert forall|x: int| 0 <= x < work@.len() implies provenance(m, *settings, (#[trigger] work@[x]).origin, work@[x].path@, work@[x].target) by {
                if x < before.len() {
                    assert(work@[x] == before[x]);
                } else {
                    assert(work@[x].path@ =~= Seq::<PathStep>::empty());
                }
            }
            lemma_pending_prefix(before, work@);
            assert forall|x: int| 0 <= x < work@.len() implies m.contains_key(#[trigger] work@[x].target) by {
                if x >= before.len() {
                    assert(m[t].spec_children().contains(work@[x].target));
                } else {
                    assert(work@[x] == before[x]);
                }
            }
            assert forall|x: int, y: TypespaceTrait| 0 <= x < work@.len() && #[trigger] work@[x].traits@.contains(y) implies reached(m, *settings, work@[x].target, y) by {
                if x >= before.len() {
                    assert(container_seed(m[t], *settings, work@[x].target, y));
                    assert(seed_at(m, *settings, t, work@[x].target, y));
                    lemma_seed_reached(m, *settings, t, work@[x].target, y);
                } else {
                    assert(work@[x] == before[x]);
                    assert(before[x].traits@.contains(y));
                }
            }
        }
        i = i + 1;
    }
    let mut i: usize = 0;
    while i < keys.len()
        invariant
            m == types@,
            closed(m),
            i <= keys@.len(),
            forall|k: u64| #[trigger] keys@.contains(k) <==> m.contains_key(k),
            items_reached(m, *settings, work@),
            items_traced(m, *settings, work@),
            forall|j: int, c: u64, y: TypespaceTrait| 0 <= j < keys@.len() && #[trigger] seed_at(m, *settings, keys@[j], c, y) && container_seed(m[keys@[j]], *settings, c, y) ==> pending(work@, c, y),
            forall|j: int, c: u64| 0 <= j < i && #[trigger] default_seed(m[keys@[j]], c) ==> pending(work@, c, TypespaceTrait::Default),
        decreases keys@.len() - i,
    {
        let t = keys[i];
        proof {
            assert(keys@.contains(t));
        }
        let ty = types.get(&t).unwrap();
        let ghost before = work@;
        default_seeds(&mut work, t, ty);
        proof {
            lemma_pending_prefix(before, work@);
            assert forall|x: int| 0 <= x < work@.len() implies provenance(m, *settings, (#[trigger] work@[x]).origin, work@[x].path@, work@[x].target) by {
                if x < before.len() {
                    assert(work@[x] == before[x]);
                } else {
                    assert(m[t] == *ty);
                }
            }
            assert forall|x: int| 0 <= x < work@.len() implies m.contains_key(#[trigger] work@[x].target) by {
                if x >= before.len() {
                    assert(m[t].spec_children().contains(work@[x].target));
                } else {
                    assert(work@[x] == before[x]);
                }
            }
            assert forall|x: int, y: TypespaceTrait| 0 <= x < work@.len() && #[trigger] work@[x].traits@.contains(y) implies reached(m, *settings, work@[x].target, y) by {
                if x >= before.len() {
                    assert(y == TypespaceTrait::Default);
                    assert(seed_at(m, *settings, t, work@[x].target, y));
                    lemma_seed_reached(m, *settings, t, work@[x].target, y);
                } else {
                    assert(work@[x] == before[x]);
                }
            }
        }
        i = i + 1;
    }
    let required = close_supertraits(settings.required_traits);
    if !required.is_empty() {
        let mut i: usize = 0;
        while i < keys.len()
            invariant
                m == types@,
                closed(m),
                required@ == spec_close(settings.required_traits@),
                i <= keys@.len(),
                forall|k: u64| #[trigger] keys@.contains(k) <==> m.contains_key(k),
                items_reached(m, *settings, work@),
                items_traced(m, *settings, work@),
                required@ != Set::<TypespaceTrait>::empty(),
                forall|j: int, c: u64, y: TypespaceTrait| 0 <= j < keys@.len() && #[trigger] seed_at(m, *settings, keys@[j], c, y) && container_seed(m[keys@[j]], *settings, c, y) ==> pending(work@, c, y),
                forall|j: int, c: u64| 0 <= j < keys@.len() && #[trigger] default_seed(m[keys@[j]], c) ==> pending(work@, c, TypespaceTrait::Default),
                forall|j: int, y: TypespaceTrait| 0 <= j < i && m[keys@[j]].spec_is_named() && required@.contains(y) ==> #[trigger] pending(work@, keys@[j], y),
            decreases keys@.len() - i,
        {
            let t = keys[i];
            proof {
                assert(keys@.contains(t));
            }
            let named = types.get(&t).unwrap().is_named();
            if named {
                let ghost before = work@;
                push_item(&mut work, t, required, RequirementOrigin::GlobalSettings, Vec::new());
                proof {
                    assert forall|x: int| 0 <= x < work@.len() implies provenance(m, *settings, (#[trigger] work@[x]).origin, work@[x].path@, work@[x].target) by {
                        if x < before.len() {
                            assert(work@[x] == before[x]);
                        } else {
                            assert(work@[x].path@ =~= Seq::<PathStep>::empty());
                        }
                    }
                    assert(work@.subrange(0, before.len() as int) == before);
                    lemma_pending_prefix(before, work@);
                    assert forall|y: TypespaceTrait| #[trigger] required@.contains(y) implies pending(work@, t, y) by {
                        lemma_pending_push(before, work@[before.len() as int], t, y);
                    }
                    assert forall|x: int, y: TypespaceTrait| 0 <= x < work@.len() && #[trigger] work@[x].traits@.contains(y) implies reached(m, *settings, work@[x].target, y) by {
                        if x >= before.len() {
                            assert(m[t].spec_is_named());
                            assert(work@[x].traits == required);
                            assert(spec_close(settings.required_traits@).contains(y));
                            assert(seed_at(m, *settings, t, t, y));
                            lemma_seed_reached(m, *settings, t, t, y);
                        } else {
                            assert(work@[x] == before[x]);
                            assert(before[x].traits@.contains(y));
                        }
                    }
                    assert forall|x: int| 0 <= x < work@.len() implies m.contains_key(#[trigger] work@[x].target) by {
                        if x < before.len() {
                            assert(work@[x] == before[x]);
                        }
                    }
                }
            }
            i = i + 1;
        }
        proof {
            assert forall|t: u64, c: u64, y: TypespaceTrait| #[trigger] seed_at(m, *settings, t, c, y) implies pending(work@, c, y) by {
                assert(keys@.contains(t));
                let j = choose|j: int| 0 <= j < keys@.len() && keys@[j] == t;
                if container_seed(m[t], *settings, c, y) {
                    assert(seed_at(m, *settings, keys@[j], c, y));
                } else if y == TypespaceTrait::Default && default_seed(m[t], c) {
                    assert(default_seed(m[keys@[j]], c));
                } else {
                    assert(required@.contains(y));
                    assert(m[keys@[j]].spec_is_named());
                }
            }
        }
    } else {
        proof {
            assert forall|t: u64, c: u64, y: TypespaceTrait| #[trigger] seed_at(m, *settings, t, c, y) implies pending(work@, c, y) by {
                assert(keys@.contains(t));
                let j = choose|j: int| 0 <= j < keys@.len() && keys@[j] == t;
                if container_seed(m[t], *settings, c, y) {
                    assert(seed_at(m, *settings, keys@[j], c, y));
                } else if y == TypespaceTrait::Default && default_seed(m[t], c) {
                    assert(default_seed(m[keys@[j]], c));
                } else {
                    assert(required@.contains(y));
                    assert(false);
                }
            }
        }
    }
    work
}

proof fn lemma_close_mono(a: Set<TypespaceTrait>, b: Set<TypespaceTrait>)
    requires
        a.subset_of(b),
    ensures
        spec_close(a).subset_of(spec_close(b)),
{
}

/// Split `traits` into the members of `bad` and the rest.
fn split_traits(traits: &TypespaceTraitSet, bad: &TypespaceTraitSet) -> (r: (Vec<TypespaceTrait>, TypespaceTraitSet))
    ensures
        forall|x: TypespaceTrait| #[trigger] r.0@.contains(x) <==> traits@.contains(x) && bad@.contains(x),
        r.0@.no_duplicates(),
        r.1@ == traits@.difference(bad@),
{
    let members = traits.iter();
    let mut out: Vec<TypespaceTrait> = Vec::new();
    let mut rest = TypespaceTraitSet::empty();
    let mut i: usize = 0;
    while i < members.len()
        invariant
            i <= members@.len(),
            members@.no_duplicates(),
            forall|x: TypespaceTrait| #[trigger] members@.contains(x) <==> traits@.contains(x),
            forall|x: TypespaceTrait| #[trigger] out@.contains(x) <==> members@.take(i as int).contains(x) && bad@.contains(x),
            out@.no_duplicates(),
            forall|x: TypespaceTrait| #[trigger] rest@.contains(x) <==> members@.take(i as int).contains(x) && !bad@.contains(x),
        decreases members@.len() - i,
    {
        let x = members[i];
        proof {
            assert forall|y: TypespaceTrait| #[trigger] members@.take(i + 1).contains(y) <==> (members@.take(i as int).contains(y) || y == x) by {
                if members@.take(i + 1).contains(y) {
                    let k = choose|k: int| 0 <= k < i + 1 && #[trigger] members@.take(i + 1)[k] == y;
                    if k < i {
                        assert(members@.take(i as int)[k] == y);
                    }
                }
                if members@.take(i as int).contains(y) {
                    let k = choose|k: int| 0 <= k < i && #[trigger] members@.take(i as int)[k] == y;
                    assert(members@.take(i + 1)[k] == y);
                }
                if y == x {
                    assert(members@.take(i + 1)[i as int] == y);
                }
            }
            assert(!members@.take(i as int).contains(x)) by {
                if members@.take(i as int).contains(x) {
                    let k = choose|k: int| 0 <= k < i && #[trigger] members@.take(i as int)[k] == x;
                    assert(members@[k] == members@[i as int]);
                }
            }
        }
        if bad.contains(&x) {
            let ghost before = out@;
            out.push(x);
            proof {
                assert forall|y: TypespaceTrait| #[trigger] out@.contains(y) <==> (before.contains(y) || y == x) by {
                    if out@.contains(y) {
                        let k = choose|k: int| 0 <= k < out@.len() && out@[k] == y;
                        if k < before.len() {
                            assert(before[k] == y);
                        }
                    }
                    if before.contains(y) {
                        let k = choose|k: int| 0 <= k < before.len() && before[k] == y;
                        assert(out@[k] == y);
                    }
                    if y == x {
                        assert(out@[before.len() as int] == y);
                    }
                }
                assert forall|a: int, b: int| 0 <= a < b < out@.len() implies out@[a] != out@[b] by {
                    if b == out@.len() - 1 {
                        assert(before.contains(out@[a]));
                    } else {
                        assert(before[a] == out@[a] && before[b] == out@[b]);
                    }
                }
            }
        } else {
            rest.add(x);
        }
        i = i + 1;
    }
    proof {
        assert(members@.take(members@.len() as int) == members@);
        assert(rest@ =~= traits@.difference(bad@));
    }
    (out, rest)
}

/// The traits a configured container or a native never provides
/// (conflicts here), and the closure of those it provides only when its
/// parameters do (passed on to each parameter).
fn container_split(decl: &ContainerType, traits: &TypespaceTraitSet) -> (r: (Vec<TypespaceTrait>, TypespaceTraitSet))
    ensures
        forall|x: TypespaceTrait| #[trigger] r.0@.contains(x) <==> traits@.contains(x) && decl.provision_of(x) is Never,
        r.0@.no_duplicates(),
        r.1@ == spec_close(Set::new(|x: TypespaceTrait| traits@.contains(x) && decl.provision_of(x) is IfParameters)),
{
    let mut never = TypespaceTraitSet::empty();
    let mut conditional = TypespaceTraitSet::empty();
    let members = traits.iter();
    let mut i: usize = 0;
    while i < members.len()
        invariant
            i <= members@.len(),
            forall|x: TypespaceTrait| #[trigger] members@.contains(x) <==> traits@.contains(x),
            forall|x: TypespaceTrait| #[trigger] never@.contains(x) <==> members@.take(i as int).contains(x) && decl.provision_of(x) is Never,
            forall|x: TypespaceTrait| #[trigger] conditional@.contains(x) <==> members@.take(i as int).contains(x) && decl.provision_of(x) is IfParameters,
        decreases members@.len() - i,
    {
        let x = members[i];
        proof {
            assert forall|y: TypespaceTrait| #[trigger] members@.take(i + 1).contains(y) <==> (members@.take(i as int).contains(y) || y == x) by {
                if members@.take(i + 1).contains(y) {
                    let k = choose|k: int| 0 <= k < i + 1 && #[trigger] members@.take(i + 1)[k] == y;
                    if k < i {
                        assert(members@.take(i as int)[k] == y);
                    }
                }
                if members@.take(i as int).contains(y) {
                    let k = choose|k: int| 0 <= k < i && #[trigger] members@.take(i as int)[k] == y;
                    assert(members@.take(i + 1)[k] == y);
                }
                if y == x {
                    assert(members@.take(i + 1)[i as int] == y);
                }
            }
        }
        match decl.provision(x) {
            TraitProvision::Never => never.add(x),
            TraitProvision::IfParameters => conditional.add(x),
            _ => {},
        }
        i = i + 1;
    }
    proof {
        assert(members@.take(members@.len() as int) == members@);
        assert(conditional@ =~= Set::new(|x: TypespaceTrait| traits@.contains(x) && decl.provision_of(x) is IfParameters));
    }
    let (bad, _) = split_traits(traits, &never);
    (bad, close_supertraits(conditional))
}

/// Record one conflict per trait of `bad` at `offender`.
fn record_conflicts(
    conflicts: &mut Vec<TraitConflict>,
    bad: &Vec<TypespaceTrait>,
    origin: &RequirementOrigin,
    path: &Vec<PathStep>,
    offender: u64,
    reason: &OffenderReason,
)
    ensures
        final(conflicts)@.len() == old(conflicts)@.len() + bad@.len(),
        final(conflicts)@.subrange(0, old(conflicts)@.len() as int) == old(conflicts)@,
        forall|k: int| 0 <= k < bad@.len() ==> (#[trigger] final(conflicts)@[old(conflicts)@.len() + k]).required == bad@[k]
            && final(conflicts)@[old(conflicts)@.len() + k].offender == offender
            && final(conflicts)@[old(conflicts)@.len() + k].reason == *reason
            && final(conflicts)@[old(conflicts)@.len() + k].origin == *origin
            && final(conflicts)@[old(conflicts)@.len() + k].path@ == path@,
{
    let ghost c0 = conflicts@;
    let mut k: usize = 0;
    while k < bad.len()
        invariant
            k <= bad@.len(),
            conflicts@.len() == c0.len() + k,
            conflicts@.subrange(0, c0.len() as int) == c0,
            forall|j: int| 0 <= j < k ==> (#[trigger] conflicts@[c0.len() + j]).required == bad@[j]
                && conflicts@[c0.len() + j].offender == offender && conflicts@[c0.len() + j].reason == *reason
                && conflicts@[c0.len() + j].origin == *origin && conflicts@[c0.len() + j].path@ == path@,
        decreases bad@.len() - k,
    {
        let ghost before = conflicts@;
        conflicts.push(TraitConflict {
            required: bad[k],
            origin: copy_origin(origin),
            path: copy_path(path),
            offender,
            reason: copy_reason(reason),
        });
        proof {
            assert(conflicts@.subrange(0, c0.len() as int) == before.subrange(0, c0.len() as int));
            assert forall|j: int| 0 <= j < k + 1 implies (#[trigger] conflicts@[c0.len() + j]).required == bad@[j]
                && conflicts@[c0.len() + j].offender == offender && conflicts@[c0.len() + j].reason == *reason
                && conflicts@[c0.len() + j].origin == *origin && conflicts@[c0.len() + j].path@ == path@ by {
                if j < k {
                    assert(conflicts@[c0.len() + j] == before[c0.len() + j]);
                }
            }
        }
        k = k + 1;
    }
}

/// A copy of reason `r`.
fn copy_reason(r: &OffenderReason) -> (c: OffenderReason)
    ensures
        c == *r,
{
    match r {
        OffenderReason::Primitive { owner_name } => OffenderReason::Primitive { owner_name: owner_name.clone() },
        OffenderReason::NativeMissingImpl { owner_name } => OffenderReason::NativeMissingImpl { owner_name: owner_name.clone() },
        OffenderReason::ContainerMissingImpl { owner_name } => OffenderReason::ContainerMissingImpl { owner_name: owner_name.clone() },
        OffenderReason::TypeCannotImplement { kind } => OffenderReason::TypeCannotImplement { kind: *kind },
        OffenderReason::IrrefutableVariantPayload { variant } => OffenderReason::IrrefutableVariantPayload { variant: variant.clone() },
    }
}

/// `r` names a built-in type by `name`.
pub open spec fn primitive_named(r: OffenderReason, name: Seq<char>) -> bool {
    r matches OffenderReason::Primitive { owner_name } && owner_name@ == name
}

/// `r` names configured container `c` by the path it was configured with.
pub open spec fn container_named(r: OffenderReason, c: ContainerType) -> bool {
    r matches OffenderReason::ContainerMissingImpl { owner_name } && owner_name@ == c.path_of()
}

/// `r` is why a type of shape `ty` cannot have `x`: a native names its
/// path; a configured vec, map or set its configured path; a built-in
/// type its name (`Option`, `Box`, `array`, `tuple`, the float's name,
/// `serde_json::Value`, `()`, `json_serde::Absent`); a named type
/// what [`impossible_reason_of`] says.
pub open spec fn reason_fits(r: OffenderReason, ty: Type, s: Settings, x: TypespaceTrait) -> bool {
    match ty {
        Type::Native(n) => r matches OffenderReason::NativeMissingImpl { owner_name } && owner_name@ == n.path_of(),
        Type::Vec(_) => container_named(r, s.vec_type),
        Type::MapOf(_, _) => container_named(r, s.map_type),
        Type::SetOf(_) => container_named(r, s.set_type),
        Type::Option(_) => primitive_named(r, "Option"@),
        Type::Box(_) => primitive_named(r, "Box"@),
        Type::Array(_, _) => primitive_named(r, "array"@),
        Type::Tuple(_) => primitive_named(r, "tuple"@),
        Type::Float(name) => primitive_named(r, name@),
        Type::JsonValue => primitive_named(r, "serde_json::Value"@),
        Type::Unit => primitive_named(r, "()"@),
        Type::Never => primitive_named(r, "json_serde::Absent"@),
        Type::Integer(_) | Type::Boolean | Type::String => true,
        _ => r == impossible_reason_of(ty, x),
    }
}

/// A copy of relation `r`.
fn copy_relation(r: &Relation) -> (c: Relation)
    ensures
        c == *r,
{
    match r {
        Relation::Field(n) => Relation::Field(n.clone()),
        Relation::Variant(n) => Relation::Variant(n.clone()),
        Relation::Element => Relation::Element,
        Relation::Key => Relation::Key,
        Relation::Value => Relation::Value,
        Relation::Parameter(k) => Relation::Parameter(*k),
        Relation::Boxed => Relation::Boxed,
        Relation::Inner => Relation::Inner,
        Relation::Target => Relation::Target,
    }
}

/// A copy of `path`.
fn copy_path(path: &Vec<PathStep>) -> (r: Vec<PathStep>)
    ensures
        r@ == path@,
{
    let mut next: Vec<PathStep> = Vec::new();
    let mut i: usize = 0;
    while i < path.len()
        invariant
            i <= path@.len(),
            next@ == path@.take(i as int),
        decreases path@.len() - i,
    {
        let step = &path[i];
        next.push(PathStep { type_id: step.type_id, relation: copy_relation(&step.relation) });
        proof {
            assert(path@.take(i + 1) =~= path@.take(i as int).push(path@[i as int]));
        }
        i = i + 1;
    }
    proof {
        assert(path@.take(path@.len() as int) =~= path@);
    }
    next
}

/// A copy of origin `o`.
fn copy_origin(o: &RequirementOrigin) -> (c: RequirementOrigin)
    ensures
        c == *o,
{
    match o {
        RequirementOrigin::ContainerParameter { container, relation } => RequirementOrigin::ContainerParameter {
            container: *container,
            relation: copy_relation(relation),
        },
        RequirementOrigin::PropertyDefault(t) => RequirementOrigin::PropertyDefault(*t),
        RequirementOrigin::DefaultValue(t) => RequirementOrigin::DefaultValue(*t),
        RequirementOrigin::GlobalSettings => RequirementOrigin::GlobalSettings,
    }
}

/// `path` extended with a hop leaving `type_id` along `relation`.
fn hop(path: &Vec<PathStep>, type_id: u64, relation: Relation) -> (r: Vec<PathStep>)
    ensures
        r@ == path@.push(PathStep { type_id, relation }),
{
    let mut next = copy_path(path);
    next.push(PathStep { type_id, relation });
    next
}

proof fn lemma_close_witness(set: Set<TypespaceTrait>, y: TypespaceTrait)
    requires
        spec_close(set).contains(y),
    ensures
        exists|x: TypespaceTrait| set.contains(x) && #[trigger] close_one(x).contains(y),
{
    if set.contains(y) {
        assert(close_one(y).contains(y));
    } else if set.contains(TypespaceTrait::Ord) && (y == TypespaceTrait::PartialOrd || y == TypespaceTrait::Eq || y
        == TypespaceTrait::PartialEq) {
        assert(close_one(TypespaceTrait::Ord).contains(y));
    } else if set.contains(TypespaceTrait::Eq) {
        assert(close_one(TypespaceTrait::Eq).contains(y));
    } else {
        assert(close_one(TypespaceTrait::PartialOrd).contains(y));
    }
}

proof fn lemma_close_one_in(set: Set<TypespaceTrait>, x: TypespaceTrait)
    requires
        set.contains(x),
    ensures
        close_one(x).subset_of(spec_close(set)),
{
    lemma_close_mono(Set::empty().insert(x), set);
}

/// `Display` and `FromStr`, which no container provides.
fn display_traits() -> (r: TypespaceTraitSet)
    ensures
        forall|x: TypespaceTrait| #[trigger] r@.contains(x) <==> display_like(x),
{
    let mut r = TypespaceTraitSet::empty();
    r.add(TypespaceTrait::Display);
    r.add(TypespaceTrait::FromStr);
    r
}

/// New conflicts, at the end of `cs` past `start`, are local conflicts of
/// `ty` at `t` over traits of `traits`, and each such local conflict has
/// one.
pub open spec fn conflicts_recorded(
    cs: Seq<TraitConflict>,
    start: int,
    ty: Type,
    s: Settings,
    t: u64,
    traits: Set<TypespaceTrait>,
) -> bool {
    &&& forall|k: int| start <= k < cs.len() ==> (#[trigger] cs[k]).offender == t && traits.contains(cs[k].required)
        && conflict_at(ty, s, cs[k].required) && reason_fits(cs[k].reason, ty, s, cs[k].required)
    &&& forall|x: TypespaceTrait| traits.contains(x) && #[trigger] conflict_at(ty, s, x) ==> exists|k: int|
        start <= k < cs.len() && (#[trigger] cs[k]).offender == t && cs[k].required == x
}

/// The items queued past `start` hold successors of pairs `(t, x)` for
/// `x` in `traits`.
pub open spec fn items_succeed(q: Seq<WorkItem>, start: int, ty: Type, s: Settings, traits: Set<TypespaceTrait>) -> bool {
    forall|i: int, y: TypespaceTrait|
        start <= i < q.len() && #[trigger] q[i].traits@.contains(y) ==> exists|x: TypespaceTrait|
            traits.contains(x) && #[trigger] step_at(ty, s, x, q[i].target, y)
}

/// The items queued past `start` target either nothing or exactly the
/// children of `ty`, in order.
pub open spec fn targets_children(q: Seq<WorkItem>, start: int, ty: Type) -> bool {
    q.len() == start || (q.len() == start + ty.spec_children().len() && forall|k: int|
        0 <= k < ty.spec_children().len() ==> (#[trigger] q[start + k]).target == ty.spec_children()[k])
}

proof fn lemma_conflicts_from_bad(
    cs0: Seq<TraitConflict>,
    cs: Seq<TraitConflict>,
    bad: Seq<TypespaceTrait>,
    ty: Type,
    s: Settings,
    t: u64,
    traits: Set<TypespaceTrait>,
)
    requires
        cs.len() == cs0.len() + bad.len(),
        forall|k: int| 0 <= k < bad.len() ==> (#[trigger] cs[cs0.len() + k]).required == bad[k] && cs[cs0.len() + k].offender == t
            && reason_fits(cs[cs0.len() + k].reason, ty, s, bad[k]),
        forall|x: TypespaceTrait| #[trigger] bad.contains(x) <==> traits.contains(x) && conflict_at(ty, s, x),
    ensures
        conflicts_recorded(cs, cs0.len() as int, ty, s, t, traits),
{
    assert forall|k: int| cs0.len() <= k < cs.len() implies (#[trigger] cs[k]).offender == t && traits.contains(cs[k].required)
        && conflict_at(ty, s, cs[k].required) && reason_fits(cs[k].reason, ty, s, cs[k].required) by {
        let j = k - cs0.len();
        assert(cs[cs0.len() + j].required == bad[j]);
        assert(bad.contains(bad[j]));
    }
    assert forall|x: TypespaceTrait| traits.contains(x) && #[trigger] conflict_at(ty, s, x) implies exists|k: int|
        cs0.len() <= k < cs.len() && (#[trigger] cs[k]).offender == t && cs[k].required == x by {
        assert(bad.contains(x));
        let j = choose|j: int| 0 <= j < bad.len() && bad[j] == x;
        assert(cs[cs0.len() + j].required == bad[j]);
    }
}

/// `pass` is what requiring `traits` of an anonymous type requires of
/// each of its children.
pub open spec fn pass_ok(ty: Type, s: Settings, traits: Set<TypespaceTrait>, pass: Set<TypespaceTrait>) -> bool {
    forall|c: u64, y: TypespaceTrait| #![trigger ty.spec_children().contains(c), pass.contains(y)] ty.spec_children().contains(c) ==> (pass.contains(y) <==> exists|x: TypespaceTrait|
        traits.contains(x) && #[trigger] step_at(ty, s, x, c, y))
}

/// The traits of `set` among `choices`.
fn traits_of(a: TypespaceTrait, b: TypespaceTrait, c: TypespaceTrait) -> (r: TypespaceTraitSet)
    ensures
        forall|x: TypespaceTrait| #[trigger] r@.contains(x) <==> x == a || x == b || x == c,
{
    let mut r = TypespaceTraitSet::empty();
    r.add(a);
    r.add(b);
    r.add(c);
    r
}

/// What an anonymous type does with a requirement: the traits it cannot
/// have (conflicts here), what it passes to each child, and how a conflict
/// names it.
fn classify_anonymous(ty: &Type, traits: &TypespaceTraitSet, settings: &Settings) -> (r: (Vec<TypespaceTrait>, TypespaceTraitSet, OffenderReason))
    requires
        !ty.spec_is_named(),
    ensures
        forall|x: TypespaceTrait| #[trigger] r.0@.contains(x) <==> traits@.contains(x) && conflict_at(*ty, *settings, x),
        pass_ok(*ty, *settings, traits@, r.1@),
        forall|x: TypespaceTrait| #[trigger] reason_fits(r.2, *ty, *settings, x),
{
    match ty {
        Type::Native(n) => {
            let (bad, pass) = container_split(&n.container, traits);
            proof {
                assert forall|c: u64, y: TypespaceTrait| #![trigger ty.spec_children().contains(c), pass@.contains(y)] ty.spec_children().contains(c) implies (pass@.contains(y) <==> exists|x: TypespaceTrait|
                    traits@.contains(x) && #[trigger] step_at(*ty, *settings, x, c, y)) by {
                    let cond = Set::new(|x: TypespaceTrait| traits@.contains(x) && n.container.provision_of(x) is IfParameters);
                    if pass@.contains(y) {
                        lemma_close_witness(cond, y);
                        let x = choose|x: TypespaceTrait| cond.contains(x) && #[trigger] close_one(x).contains(y);
                        assert(step_at(*ty, *settings, x, c, y));
                    }
                    if exists|x: TypespaceTrait| traits@.contains(x) && #[trigger] step_at(*ty, *settings, x, c, y) {
                        let x = choose|x: TypespaceTrait| traits@.contains(x) && #[trigger] step_at(*ty, *settings, x, c, y);
                        assert(cond.contains(x));
                        lemma_close_one_in(cond, x);
                    }
                }
            }
            (bad, pass, OffenderReason::NativeMissingImpl { owner_name: n.path().to_owned() })
        },
        Type::Vec(_) | Type::MapOf(_, _) | Type::SetOf(_) => {
            let decl = match ty {
                Type::Vec(_) => &settings.vec_type,
                Type::MapOf(_, _) => &settings.map_type,
                _ => &settings.set_type,
            };
            let (bad, pass) = container_split(decl, traits);
            proof {
                assert forall|c: u64, y: TypespaceTrait| #![trigger ty.spec_children().contains(c), pass@.contains(y)] ty.spec_children().contains(c) implies (pass@.contains(y) <==> exists|x: TypespaceTrait|
                    traits@.contains(x) && #[trigger] step_at(*ty, *settings, x, c, y)) by {
                    let cond = Set::new(|x: TypespaceTrait| traits@.contains(x) && decl.provision_of(x) is IfParameters);
                    if ty is MapOf {
                        assert(c == ty->MapOf_0 || c == ty->MapOf_1);
                    } else if ty is Vec {
                        assert(c == ty->Vec_0);
                    } else {
                        assert(c == ty->SetOf_0);
                    }
                    if pass@.contains(y) {
                        lemma_close_witness(cond, y);
                        let x = choose|x: TypespaceTrait| cond.contains(x) && #[trigger] close_one(x).contains(y);
                        assert(step_at(*ty, *settings, x, c, y));
                    }
                    if exists|x: TypespaceTrait| traits@.contains(x) && #[trigger] step_at(*ty, *settings, x, c, y) {
                        let x = choose|x: TypespaceTrait| traits@.contains(x) && #[trigger] step_at(*ty, *settings, x, c, y);
                        assert(cond.contains(x));
                        lemma_close_one_in(cond, x);
                    }
                }
            }
            (bad, pass, OffenderReason::ContainerMissingImpl { owner_name: decl.path().to_owned() })
        },
        Type::Option(_) | Type::Box(_) | Type::Array(_, _) | Type::Tuple(_) => {
            let (bad, rest) = split_traits(traits, &display_traits());
            let mut pass = rest;
            let name = match ty {
                Type::Option(_) => "Option",
                Type::Box(_) => "Box",
                Type::Array(_, _) => "array",
                _ => "tuple",
            };
            if matches!(ty, Type::Option(_)) {
                pass.remove(TypespaceTrait::Default);
            }
            proof {
                assert forall|c: u64, y: TypespaceTrait| #![trigger ty.spec_children().contains(c), pass@.contains(y)] ty.spec_children().contains(c) implies (pass@.contains(y) <==> exists|x: TypespaceTrait|
                    traits@.contains(x) && #[trigger] step_at(*ty, *settings, x, c, y)) by {
                    if ty is Option {
                        assert(c == ty->Option_0);
                    } else if ty is Box {
                        assert(c == ty->Box_0);
                    } else if ty is Array {
                        assert(c == ty->Array_0);
                    }
                    if pass@.contains(y) {
                        assert(step_at(*ty, *settings, y, c, y));
                    }
                }
            }
            (bad, pass, OffenderReason::Primitive { owner_name: name.to_owned() })
        },
        Type::Float(name) => {
            let (bad, _) = split_traits(traits, &traits_of(TypespaceTrait::Ord, TypespaceTrait::Eq, TypespaceTrait::Hash));
            (bad, TypespaceTraitSet::empty(), OffenderReason::Primitive { owner_name: name.clone() })
        },
        Type::JsonValue => {
            let (bad, _) = split_traits(traits, &traits_of(TypespaceTrait::Ord, TypespaceTrait::PartialOrd, TypespaceTrait::Ord));
            (bad, TypespaceTraitSet::empty(), OffenderReason::Primitive { owner_name: "serde_json::Value".to_owned() })
        },
        Type::Unit | Type::Never => {
            let (bad, _) = split_traits(traits, &display_traits());
            let name = if matches!(ty, Type::Unit) {
                "()"
            } else {
                "json_serde::Absent"
            };
            (bad, TypespaceTraitSet::empty(), OffenderReason::Primitive { owner_name: name.to_owned() })
        },
        _ => (Vec::new(), TypespaceTraitSet::empty(), OffenderReason::Primitive { owner_name: String::new() }),
    }
}

/// The relation by which a requirement reaches child `k` of anonymous
/// type `ty`: a box's one child is boxed, a map's first child is its key
/// and the other its value, a native's children are its parameters by
/// index, and every other child is an element.
pub open spec fn anon_child_relation(ty: Type, k: usize) -> Relation {
    match ty {
        Type::Box(_) => Relation::Boxed,
        Type::MapOf(_, _) => if k == 0 {
            Relation::Key
        } else {
            Relation::Value
        },
        Type::Native(_) => Relation::Parameter(k),
        _ => Relation::Element,
    }
}

/// The relation by which a requirement reaches child `k` of anonymous
/// type `ty`.
fn child_relation(ty: &Type, k: usize) -> (r: Relation)
    ensures
        r == anon_child_relation(*ty, k),
{
    match ty {
        Type::Box(_) => Relation::Boxed,
        Type::MapOf(_, _) => if k == 0 {
            Relation::Key
        } else {
            Relation::Value
        },
        Type::Native(_) => Relation::Parameter(k),
        _ => Relation::Element,
    }
}

/// Queue `pass` for each child of `ty`, in order.
fn forward_to_children(work: &mut VecDeque<WorkItem>, t: u64, ty: &Type, pass: TypespaceTraitSet, origin: &RequirementOrigin, path: &Vec<PathStep>)
    ensures
        final(work)@.len() == old(work)@.len() + ty.spec_children().len(),
        final(work)@.subrange(0, old(work)@.len() as int) == old(work)@,
        forall|k: int| 0 <= k < ty.spec_children().len() ==> (#[trigger] final(work)@[old(work)@.len() + k]).target
            == ty.spec_children()[k] && final(work)@[old(work)@.len() + k].traits == pass
            && final(work)@[old(work)@.len() + k].origin == *origin
            && final(work)@[old(work)@.len() + k].path@ == path@.push(PathStep { type_id: t, relation: anon_child_relation(*ty, k as usize) }),
{
    let ghost q0 = work@;
    let ids = ty.children();
    let mut k: usize = 0;
    while k < ids.len()
        invariant
            ids@ == ty.spec_children(),
            k <= ids@.len(),
            work@.len() == q0.len() + k,
            work@.subrange(0, q0.len() as int) == q0,
            forall|j: int| 0 <= j < k ==> (#[trigger] work@[q0.len() + j]).target == ids@[j] && work@[q0.len() + j].traits == pass
                && work@[q0.len() + j].origin == *origin
                && work@[q0.len() + j].path@ == path@.push(PathStep { type_id: t, relation: anon_child_relation(*ty, j as usize) }),
        decreases ids@.len() - k,
    {
        let ghost before = work@;
        push_item(work, ids[k], pass, copy_origin(origin), hop(path, t, child_relation(ty, k)));
        proof {
            assert(work@.subrange(0, q0.len() as int) == before.subrange(0, q0.len() as int));
            assert forall|j: int| 0 <= j < k + 1 implies (#[trigger] work@[q0.len() + j]).target == ids@[j] && work@[q0.len() + j].traits == pass
                && work@[q0.len() + j].origin == *origin
                && work@[q0.len() + j].path@ == path@.push(PathStep { type_id: t, relation: anon_child_relation(*ty, j as usize) }) by {
                if j < k {
                    assert(work@[q0.len() + j] == before[q0.len() + j]);
                }
            }
        }
        k = k + 1;
    }
}

/// Every successor of a pair at a type is one of its children.
proof fn lemma_step_child(ty: Type, s: Settings, x: TypespaceTrait, c: u64, y: TypespaceTrait)
    requires
        step_at(ty, s, x, c, y),
        !ty.spec_is_named(),
    ensures
        ty.spec_children().contains(c),
{
    match ty {
        Type::MapOf(k, v) => {
            if c == k {
                assert(ty.spec_children()[0] == c);
            } else {
                assert(ty.spec_children()[1] == c);
            }
        },
        Type::Option(e) | Type::Box(e) | Type::Vec(e) | Type::SetOf(e) | Type::Array(e, _) => {
            assert(ty.spec_children()[0] == c);
        },
        _ => {},
    }
}

/// Process a requirement on anonymous type `t`: record its local
/// conflicts and pass the rest on to its children.
fn process_anonymous(
    ty: &Type,
    item: &WorkItem,
    settings: &Settings,
    work: &mut VecDeque<WorkItem>,
    conflicts: &mut Vec<TraitConflict>,
)
    requires
        !ty.spec_is_named(),
    ensures
        final(work)@.len() >= old(work)@.len(),
        final(work)@.subrange(0, old(work)@.len() as int) == old(work)@,
        items_succeed(final(work)@, old(work)@.len() as int, *ty, *settings, item.traits@),
        targets_children(final(work)@, old(work)@.len() as int, *ty),
        forall|x: TypespaceTrait, c: u64, y: TypespaceTrait|
            item.traits@.contains(x) && #[trigger] step_at(*ty, *settings, x, c, y) ==> pending(final(work)@, c, y),
        final(conflicts)@.len() >= old(conflicts)@.len(),
        final(conflicts)@.subrange(0, old(conflicts)@.len() as int) == old(conflicts)@,
        conflicts_recorded(final(conflicts)@, old(conflicts)@.len() as int, *ty, *settings, item.target, item.traits@),
        items_hop(final(work)@, old(work)@.len() as int, *ty, *item),
        conflicts_from(final(conflicts)@, old(conflicts)@.len() as int, *item),
{
    let ghost q0 = work@;
    let ghost cs0 = conflicts@;
    let (bad, pass, reason) = classify_anonymous(ty, &item.traits, settings);
    record_conflicts(conflicts, &bad, &item.origin, &item.path, item.target, &reason);
    proof {
        lemma_conflicts_from_bad(cs0, conflicts@, bad@, *ty, *settings, item.target, item.traits@);
        assert forall|k: int| cs0.len() <= k < conflicts@.len() implies (#[trigger] conflicts@[k]).origin == item.origin
            && conflicts@[k].path@ == item.path@ by {
            assert(conflicts@[cs0.len() + (k - cs0.len())] == conflicts@[k]);
        }
    }
    if !pass.is_empty() {
        forward_to_children(work, item.target, ty, pass, &item.origin, &item.path);
        proof {
            assert forall|i: int, y: TypespaceTrait|
                q0.len() <= i < work@.len() && #[trigger] work@[i].traits@.contains(y) implies exists|x: TypespaceTrait|
                    item.traits@.contains(x) && #[trigger] step_at(*ty, *settings, x, work@[i].target, y) by {
                let k = i - q0.len();
                assert(work@[q0.len() + k].target == ty.spec_children()[k]);
                assert(ty.spec_children().contains(ty.spec_children()[k]));
            }
            assert forall|x: TypespaceTrait, c: u64, y: TypespaceTrait|
                item.traits@.contains(x) && #[trigger] step_at(*ty, *settings, x, c, y) implies pending(work@, c, y) by {
                lemma_step_child(*ty, *settings, x, c, y);
                let k = choose|k: int| 0 <= k < ty.spec_children().len() && ty.spec_children()[k] == c;
                assert(work@[q0.len() + k].target == c);
                assert(work@[q0.len() + k].traits@.contains(y));
            }
            assert forall|i: int| q0.len() <= i < work@.len() implies (#[trigger] work@[i]).origin == item.origin
                && work@[i].path@.len() == item.path@.len() + 1 && work@[i].path@.drop_last() == item.path@
                && work@[i].path@.last().type_id == item.target && ty_hop(*ty, work@[i].path@.last().relation, work@[i].target) by {
                let k = i - q0.len();
                assert(work@[q0.len() + k].target == ty.spec_children()[k]);
                let p = work@[i].path@;
                assert(p == item.path@.push(PathStep { type_id: item.target, relation: anon_child_relation(*ty, k as usize) }));
                assert(p.drop_last() =~= item.path@);
                assert(ty.spec_children()[k] == work@[i].target);
            }
        }
    } else {
        proof {
            assert forall|x: TypespaceTrait, c: u64, y: TypespaceTrait|
                item.traits@.contains(x) && #[trigger] step_at(*ty, *settings, x, c, y) implies pending(work@, c, y) by {
                lemma_step_child(*ty, *settings, x, c, y);
                assert(pass@.contains(y));
                assert(pass@ == Set::<TypespaceTrait>::empty());
            }
        }
    }
}

/// Queue `traits` for each of `kids`, hopping from `t` along each kid's
/// relation.
fn push_kids(
    work: &mut VecDeque<WorkItem>,
    t: u64,
    kids: &Vec<ContainedChild>,
    traits: TypespaceTraitSet,
    origin: &RequirementOrigin,
    path: &Vec<PathStep>,
)
    ensures
        final(work)@.len() == old(work)@.len() + kids@.len(),
        final(work)@.subrange(0, old(work)@.len() as int) == old(work)@,
        forall|k: int| 0 <= k < kids@.len() ==> (#[trigger] final(work)@[old(work)@.len() + k]).target == kids@[k].id
            && final(work)@[old(work)@.len() + k].traits == traits
            && final(work)@[old(work)@.len() + k].origin == *origin
            && final(work)@[old(work)@.len() + k].path@ == path@.push(PathStep { type_id: t, relation: kids@[k].relation }),
{
    let ghost q0 = work@;
    let mut k: usize = 0;
    while k < kids.len()
        invariant
            k <= kids@.len(),
            work@.len() == q0.len() + k,
            work@.subrange(0, q0.len() as int) == q0,
            forall|j: int| 0 <= j < k ==> (#[trigger] work@[q0.len() + j]).target == kids@[j].id && work@[q0.len() + j].traits == traits
                && work@[q0.len() + j].origin == *origin
                && work@[q0.len() + j].path@ == path@.push(PathStep { type_id: t, relation: kids@[j].relation }),
        decreases kids@.len() - k,
    {
        let ghost before = work@;
        push_item(work, kids[k].id, traits, copy_origin(origin), hop(path, t, copy_relation(&kids[k].relation)));
        proof {
            assert(work@.subrange(0, q0.len() as int) == before.subrange(0, q0.len() as int));
            assert forall|j: int| 0 <= j < k + 1 implies (#[trigger] work@[q0.len() + j]).target == kids@[j].id && work@[q0.len() + j].traits == traits
                && work@[q0.len() + j].origin == *origin
                && work@[q0.len() + j].path@ == path@.push(PathStep { type_id: t, relation: kids@[j].relation }) by {
                if j < k {
                    assert(work@[q0.len() + j] == before[q0.len() + j]);
                }
            }
        }
        k = k + 1;
    }
}

/// The singleton set of `x`.
fn just(x: TypespaceTrait) -> (r: TypespaceTraitSet)
    ensures
        r@ == Set::empty().insert(x),
{
    let mut r = TypespaceTraitSet::empty();
    r.add(x);
    proof {
        assert(r@ =~= Set::empty().insert(x));
    }
    r
}

/// Type `id` of `m` parses every string with its `FromStr`, within
/// `fuel` steps: a string does, an unconstrained newtype struct does when
/// its inner type does, an alias does when its target does, and nothing
/// else does (a constraint counts as validation).
pub open spec fn irrefutable_at(m: Map<u64, Type>, id: u64, fuel: nat) -> bool
    decreases fuel,
{
    if fuel == 0 || !m.contains_key(id) {
        false
    } else {
        match m[id] {
            Type::String => true,
            Type::NewtypeStruct(n) => n.constraints is Unconstrained && irrefutable_at(m, n.inner, (fuel - 1) as nat),
            Type::TypeAlias(a) => irrefutable_at(m, a.target, (fuel - 1) as nat),
            _ => false,
        }
    }
}

/// Type `id` of `m` parses every string with its `FromStr`. A chain of
/// aliases and newtypes that ends at a string passes each type once, so
/// as many steps as `m` has types decide it.
pub open spec fn irrefutable(m: Map<u64, Type>, id: u64) -> bool {
    irrefutable_at(m, id, m.dom().len())
}

/// The first of the variants `vs` from `k` on, other than the last, whose
/// payload is a single type of `m` that parses every string.
pub open spec fn first_refused(m: Map<u64, Type>, vs: Seq<EnumVariant>, k: int) -> Option<int>
    decreases vs.len() - k,
{
    if k < 0 || k >= vs.len() - 1 {
        None
    } else if (vs[k].details matches VariantDetails::Item(id) && irrefutable(m, id)) {
        Some(k)
    } else {
        first_refused(m, vs, k + 1)
    }
}

/// The variant whose payload makes the `FromStr` of untagged enum `e` of
/// `m` meaningless: the first one, other than the last, whose payload
/// parses every string. None for an enum that is not untagged with a
/// single payload in every variant.
pub open spec fn refusal_index(m: Map<u64, Type>, e: Enum) -> Option<int> {
    if e.spec_all_untagged_item_variants() {
        first_refused(m, e.variants@, 0)
    } else {
        None
    }
}

/// `e` records what [`refusal_index`] finds in `m`: the Rust name of that
/// variant, or nothing.
pub open spec fn refusal_recorded(m: Map<u64, Type>, e: Enum) -> bool {
    match refusal_index(m, e) {
        None => e.from_str_refusal is None,
        Some(i) => e.from_str_refusal matches Some(v) && v@ == e.variants@[i].rust_name@,
    }
}

/// Every enum of `m` records the refusal of `FromStr` its payloads in `m`
/// call for.
pub open spec fn refusals_recorded(m: Map<u64, Type>) -> bool {
    forall|t: u64| #[trigger] m.contains_key(t) ==> (m[t] matches Type::Enum(e) ==> refusal_recorded(m, e))
}

/// Graphs that agree but for what finalization computed agree on which
/// types parse every string.
pub proof fn lemma_irrefutable_agree(m1: Map<u64, Type>, m2: Map<u64, Type>, id: u64, fuel: nat)
    requires
        m1.dom() == m2.dom(),
        forall|t: u64| #[trigger] m2.contains_key(t) ==> m2[t].agrees_except_computed(m1[t]),
    ensures
        irrefutable_at(m1, id, fuel) == irrefutable_at(m2, id, fuel),
    decreases fuel,
{
    if fuel > 0 && m1.contains_key(id) {
        assert(m2.contains_key(id));
        assert(m2[id].agrees_except_computed(m1[id]));
        match (m1[id], m2[id]) {
            (Type::NewtypeStruct(a), Type::NewtypeStruct(b)) => {
                assert(a.inner == b.inner && a.constraints == b.constraints);
                lemma_irrefutable_agree(m1, m2, a.inner, (fuel - 1) as nat);
            },
            (Type::TypeAlias(a), Type::TypeAlias(b)) => {
                assert(a.target == b.target);
                lemma_irrefutable_agree(m1, m2, a.target, (fuel - 1) as nat);
            },
            _ => {},
        }
    }
}

/// Whether type `id` of `types` parses every string, within `fuel` steps.
fn irrefutable_within(types: &BTreeMap<u64, Type>, id: u64, fuel: usize) -> (b: bool)
    ensures
        b == irrefutable_at(types@, id, fuel as nat),
    decreases fuel,
{
    proof {
        lemma_u64_key_order();
    }
    if fuel == 0 {
        return false;
    }
    match types.get(&id) {
        None => false,
        Some(Type::String) => true,
        Some(Type::NewtypeStruct(n)) => matches!(n.constraints, NewtypeConstraints::Unconstrained)
            && irrefutable_within(types, n.inner, fuel - 1),
        Some(Type::TypeAlias(a)) => irrefutable_within(types, a.target, fuel - 1),
        _ => false,
    }
}

/// The name of the variant [`refusal_index`] finds for enum `e` of
/// `types`, if any.
pub fn find_refusal(types: &BTreeMap<u64, Type>, e: &Enum) -> (r: Option<String>)
    ensures
        refusal_recorded(types@, Enum { from_str_refusal: r, ..*e }),
{
    if !e.all_untagged_item_variants() {
        return None;
    }
    let n = types.len();
    proof {
        assert(n == types@.dom().len());
    }
    let mut k: usize = 0;
    while k < e.variants.len() - 1
        invariant
            e.spec_all_untagged_item_variants(),
            n == types@.dom().len(),
            k < e.variants@.len(),
            first_refused(types@, e.variants@, 0) == first_refused(types@, e.variants@, k as int),
        decreases e.variants@.len() - k,
    {
        match &e.variants[k].details {
            VariantDetails::Item(id) => {
                if irrefutable_within(types, *id, n) {
                    return Some(e.variants[k].rust_name.clone());
                }
            },
            _ => {},
        }
        k = k + 1;
    }
    None
}

/// Why named type `ty` cannot have `x` in any form: the first variant
/// with a payload that parses every string, for the `FromStr` of an enum
/// that records one; the kind of type otherwise.
pub open spec fn impossible_reason_of(ty: Type, x: TypespaceTrait) -> OffenderReason {
    match ty {
        Type::Enum(e) => if x == TypespaceTrait::FromStr && e.from_str_refusal is Some {
            OffenderReason::IrrefutableVariantPayload { variant: e.from_str_refusal->0 }
        } else {
            OffenderReason::TypeCannotImplement { kind: "enum" }
        },
        _ => OffenderReason::TypeCannotImplement { kind: kind_str(ty) },
    }
}

/// The word a conflict uses for the kind of named type `ty`, as text.
pub open spec fn kind_str(ty: Type) -> &'static str {
    match ty {
        Type::Struct(_) => "struct",
        Type::Enum(_) => "enum",
        Type::NewtypeStruct(_) => "newtype struct",
        Type::UnitStruct(_) => "unit struct",
        Type::TupleStruct(_) => "tuple struct",
        _ => "type alias",
    }
}

/// Why named type `ty` cannot have `x` in any form.
fn impossible_reason(ty: &Type, x: TypespaceTrait) -> (r: OffenderReason)
    ensures
        r == impossible_reason_of(*ty, x),
{
    match ty {
        Type::Enum(e) => {
            if x == TypespaceTrait::FromStr {
                match &e.from_str_refusal {
                    Some(v) => {
                        return OffenderReason::IrrefutableVariantPayload { variant: v.clone() };
                    },
                    None => {},
                }
            }
            OffenderReason::TypeCannotImplement { kind: "enum" }
        },
        _ => OffenderReason::TypeCannotImplement { kind: type_kind(ty) },
    }
}

/// The word a conflict uses for the kind of named type `ty`.
pub open spec fn kind_word(ty: Type) -> Seq<char> {
    match ty {
        Type::Struct(_) => "struct"@,
        Type::Enum(_) => "enum"@,
        Type::NewtypeStruct(_) => "newtype struct"@,
        Type::UnitStruct(_) => "unit struct"@,
        Type::TupleStruct(_) => "tuple struct"@,
        _ => "type alias"@,
    }
}

/// The word a conflict uses for the kind of a named type.
fn type_kind(ty: &Type) -> (k: &'static str)
    ensures
        k@ == kind_word(*ty),
        k == kind_str(*ty),
{
    match ty {
        Type::Struct(_) => "struct",
        Type::Enum(_) => "enum",
        Type::NewtypeStruct(_) => "newtype struct",
        Type::UnitStruct(_) => "unit struct",
        Type::TupleStruct(_) => "tuple struct",
        _ => "type alias",
    }
}

/// The traits of `traits` not in `built`: those a named type has not
/// absorbed yet.
pub open spec fn fresh_traits(traits: Set<TypespaceTrait>, built: Set<TypespaceTrait>) -> Set<TypespaceTrait> {
    traits.difference(built)
}

/// The traits of `traits` a named type of shape `ty` can have.
pub open spec fn feasible_traits(ty: Type, s: Settings, traits: Set<TypespaceTrait>) -> Set<TypespaceTrait> {
    Set::new(|x: TypespaceTrait| traits.contains(x) && !feas_impossible(ty, x, s.typify_compat))
}

/// Process a requirement on named type `ty`: absorb each trait it has not
/// absorbed and can have, pass each such trait to the types its
/// realization needs, and record a conflict for each it cannot have.
fn process_named(
    ty: &mut Type,
    item: &WorkItem,
    settings: &Settings,
    work: &mut VecDeque<WorkItem>,
    conflicts: &mut Vec<TraitConflict>,
)
    requires
        old(ty).spec_is_named(),
        old(ty).built_of() is Some,
    ensures
        final(ty).agrees_except_built(*old(ty)),
        final(ty).spec_is_named(),
        final(ty).built_of() is Some,
        final(ty).built_of()->0@ == old(ty).built_of()->0@.union(feasible_traits(*old(ty), *settings, item.traits@)),
        final(work)@.len() >= old(work)@.len(),
        final(work)@.subrange(0, old(work)@.len() as int) == old(work)@,
        items_succeed(final(work)@, old(work)@.len() as int, *old(ty), *settings, fresh_traits(item.traits@, old(ty).built_of()->0@)),
        forall|x: TypespaceTrait, c: u64, y: TypespaceTrait|
            fresh_traits(item.traits@, old(ty).built_of()->0@).contains(x) && #[trigger] step_at(*old(ty), *settings, x, c, y)
                ==> pending(final(work)@, c, y),
        final(ty).built_of()->0@ == old(ty).built_of()->0@ ==> final(work)@.len() == old(work)@.len(),
        forall|i: int| old(work)@.len() <= i < final(work)@.len() ==> old(ty).spec_children().contains(#[trigger] final(work)@[i].target),
        final(conflicts)@.len() >= old(conflicts)@.len(),
        final(conflicts)@.subrange(0, old(conflicts)@.len() as int) == old(conflicts)@,
        conflicts_recorded(final(conflicts)@, old(conflicts)@.len() as int, *old(ty), *settings, item.target, fresh_traits(item.traits@, old(ty).built_of()->0@)),
        items_hop(final(work)@, old(work)@.len() as int, *old(ty), *item),
        conflicts_from(final(conflicts)@, old(conflicts)@.len() as int, *item),
{
    let ghost ty0 = *ty;
    let ghost q0 = work@;
    let ghost cs0 = conflicts@;
    let compat = settings.typify_compat;
    let old_built = ty.built_traits().unwrap();
    let ghost fresh = fresh_traits(item.traits@, old_built@);
    let mut built = old_built;
    let members = item.traits.iter();
    let mut derivable_new = TypespaceTraitSet::empty();
    let mut manual: Vec<(TypespaceTrait, Vec<ContainedChild>)> = Vec::new();
    let mut j: usize = 0;
    while j < members.len()
        invariant
            *ty == ty0,
            ty0.spec_is_named(),
            compat == settings.typify_compat,
            fresh == fresh_traits(item.traits@, old_built@),
            j <= members@.len(),
            members@.no_duplicates(),
            forall|x: TypespaceTrait| #[trigger] members@.contains(x) <==> item.traits@.contains(x),
            built@ == old_built@.union(feasible_traits(ty0, *settings, members@.take(j as int).to_set())),
            forall|x: TypespaceTrait| #[trigger] derivable_new@.contains(x) ==> fresh.contains(x) && !feas_impossible(ty0, x, compat)
                && feas_targets(ty0, x, compat) == ty0.spec_contained() && built@.contains(x) && !old_built@.contains(x),
            forall|k: int| 0 <= k < manual@.len() ==> fresh.contains((#[trigger] manual@[k]).0) && !feas_impossible(ty0, manual@[k].0, compat)
                && ids_of(manual@[k].1@) == feas_targets(ty0, manual@[k].0, compat) && built@.contains(manual@[k].0)
                && !old_built@.contains(manual@[k].0) && manual@[k].1@ == manual_children(ty0, manual@[k].0),
            conflicts_from(conflicts@, cs0.len() as int, *item),
            forall|x: TypespaceTrait| #[trigger] members@.take(j as int).contains(x) && fresh.contains(x) && !feas_impossible(ty0, x, compat) ==> derivable_new@.contains(x)
                || (exists|k: int| 0 <= k < manual@.len() && (#[trigger] manual@[k]).0 == x) || feas_targets(ty0, x, compat).len() == 0,
            conflicts@.len() >= cs0.len(),
            conflicts@.subrange(0, cs0.len() as int) == cs0,
            forall|k: int| cs0.len() <= k < conflicts@.len() ==> (#[trigger] conflicts@[k]).offender == item.target && fresh.contains(conflicts@[k].required)
                && conflict_at(ty0, *settings, conflicts@[k].required) && reason_fits(conflicts@[k].reason, ty0, *settings, conflicts@[k].required),
            forall|x: TypespaceTrait| #[trigger] members@.take(j as int).contains(x) && fresh.contains(x) && conflict_at(ty0, *settings, x) ==> exists|k: int|
                cs0.len() <= k < conflicts@.len() && (#[trigger] conflicts@[k]).offender == item.target && conflicts@[k].required == x,
        decreases members@.len() - j,
    {
        let x = members[j];
        let ghost built0 = built@;
        let ghost cs1 = conflicts@;
        let ghost manual0 = manual@;
        proof {
            assert forall|y: TypespaceTrait| #[trigger] members@.take(j + 1).contains(y) <==> (members@.take(j as int).contains(y) || y == x) by {
                if members@.take(j + 1).contains(y) {
                    let k = choose|k: int| 0 <= k < j + 1 && #[trigger] members@.take(j + 1)[k] == y;
                    if k < j {
                        assert(members@.take(j as int)[k] == y);
                    }
                }
                if members@.take(j as int).contains(y) {
                    let k = choose|k: int| 0 <= k < j && #[trigger] members@.take(j as int)[k] == y;
                    assert(members@.take(j + 1)[k] == y);
                }
                if y == x {
                    assert(members@.take(j + 1)[j as int] == y);
                }
            }
            assert(!members@.take(j as int).contains(x)) by {
                if members@.take(j as int).contains(x) {
                    let k = choose|k: int| 0 <= k < j && #[trigger] members@.take(j as int)[k] == x;
                    assert(members@[k] == members@[j as int]);
                }
            }
            assert(members@[j as int] == x);
            assert(members@.contains(x));
            assert(item.traits@.contains(x));
            assert(built@.contains(x) <==> old_built@.contains(x));
        }
        if !built.contains(&x) {
            match feasibility(ty, x, settings) {
                Feasibility::Derivable | Feasibility::Forward => {
                    built.add(x);
                    derivable_new.add(x);
                },
                Feasibility::ManuallyRealizable(obl) => {
                    built.add(x);
                    if obl.len() > 0 {
                        manual.push((x, obl));
                    }
                },
                Feasibility::Impossible => {
                    conflicts.push(TraitConflict {
                        required: x,
                        origin: copy_origin(&item.origin),
                        path: copy_path(&item.path),
                        offender: item.target,
                        reason: impossible_reason(ty, x),
                    });
                    proof {
                        assert(conflicts@[cs1.len() as int].required == x);
                        assert(conflicts@.subrange(0, cs0.len() as int) == cs1.subrange(0, cs0.len() as int));
                        assert forall|k: int| cs0.len() <= k < conflicts@.len() implies (#[trigger] conflicts@[k]).offender == item.target && fresh.contains(conflicts@[k].required)
                            && conflict_at(ty0, *settings, conflicts@[k].required) && reason_fits(conflicts@[k].reason, ty0, *settings, conflicts@[k].required) by {
                            if k < cs1.len() {
                                assert(conflicts@[k] == cs1[k]);
                            }
                        }
                        assert forall|y: TypespaceTrait| #[trigger] members@.take(j + 1).contains(y) && fresh.contains(y) && conflict_at(ty0, *settings, y) implies exists|k: int|
                            cs0.len() <= k < conflicts@.len() && (#[trigger] conflicts@[k]).offender == item.target && conflicts@[k].required == y by {
                            if y != x {
                                let k = choose|k: int| cs0.len() <= k < cs1.len() && (#[trigger] cs1[k]).offender == item.target && cs1[k].required == y;
                                assert(conflicts@[k] == cs1[k]);
                            } else {
                                assert(conflicts@[cs1.len() as int].offender == item.target);
                            }
                        }
                    }
                },
            }
        }
        proof {
            assert(built@ =~= old_built@.union(feasible_traits(ty0, *settings, members@.take(j + 1).to_set())));
            assert forall|k: int| 0 <= k < manual@.len() implies fresh.contains((#[trigger] manual@[k]).0) && !feas_impossible(ty0, manual@[k].0, compat)
                && ids_of(manual@[k].1@) == feas_targets(ty0, manual@[k].0, compat) && built@.contains(manual@[k].0)
                && !old_built@.contains(manual@[k].0) && manual@[k].1@ == manual_children(ty0, manual@[k].0) by {
                if k < manual0.len() {
                    assert(manual@[k] == manual0[k]);
                }
            }
            assert forall|y: TypespaceTrait| #[trigger] members@.take(j + 1).contains(y) && fresh.contains(y) && !feas_impossible(ty0, y, compat) implies derivable_new@.contains(y)
                || (exists|k: int| 0 <= k < manual@.len() && (#[trigger] manual@[k]).0 == y) || feas_targets(ty0, y, compat).len() == 0 by {
                if y != x {
                    if exists|k: int| 0 <= k < manual0.len() && (#[trigger] manual0[k]).0 == y {
                        let k = choose|k: int| 0 <= k < manual0.len() && (#[trigger] manual0[k]).0 == y;
                        assert(manual@[k] == manual0[k]);
                    }
                } else if manual@.len() > manual0.len() {
                    assert(manual@[manual0.len() as int].0 == y);
                }
            }
            if conflicts@ == cs1 {
                assert forall|y: TypespaceTrait| #[trigger] members@.take(j + 1).contains(y) && fresh.contains(y) && conflict_at(ty0, *settings, y) implies exists|k: int|
                    cs0.len() <= k < conflicts@.len() && (#[trigger] conflicts@[k]).offender == item.target && conflicts@[k].required == y by {
                    if y == x {
                        assert(!feas_impossible(ty0, x, compat));
                    }
                }
            }
        }
        j = j + 1;
    }
    proof {
        assert(members@.take(members@.len() as int) == members@);
        assert(members@.to_set() =~= item.traits@);
    }
    ty.set_built(built);
    proof {
        assert(ty.built_of() == Some(built));
        assert(ty.spec_contained() == ty0.spec_contained() && ty.spec_children() == ty0.spec_children()) by {
            assert(ty.without_built() == ty0.without_built());
        }
        lemma_contained_children(ty0);
    }
    let ghost kids_ids = ty0.spec_contained();
    if !derivable_new.is_empty() {
        let kids = ty.contained_children_related();
        push_kids(work, item.target, &kids, derivable_new, &item.origin, &item.path);
        proof {
            assert forall|k: int| 0 <= k < kids_ids.len() implies (#[trigger] work@[q0.len() + k]).target == kids_ids[k]
                && work@[q0.len() + k].traits == derivable_new by {
                assert(kids@[k].id == ids_of(kids@)[k]);
            }
            lemma_related_kept(*ty, ty0);
            assert forall|i: int| q0.len() <= i < work@.len() implies (#[trigger] work@[i]).origin == item.origin
                && work@[i].path@.len() == item.path@.len() + 1 && work@[i].path@.drop_last() == item.path@
                && work@[i].path@.last().type_id == item.target && ty_hop(ty0, work@[i].path@.last().relation, work@[i].target) by {
                let k = i - q0.len();
                assert(work@[q0.len() + k] == work@[i]);
                assert(work@[i].path@ == item.path@.push(PathStep { type_id: item.target, relation: kids@[k].relation }));
                assert(work@[i].path@.drop_last() =~= item.path@);
                assert(spec_contained_related(ty0)[k] == kids@[k]);
            }
        }
    }
    let ghost q1 = work@;
    proof {
        assert(q1.len() == q0.len() || (!(derivable_new@ == Set::<TypespaceTrait>::empty()) && q1.len() == q0.len() + kids_ids.len()));
        assert(q1.subrange(0, q0.len() as int) =~= q0) by {
            assert forall|i: int| 0 <= i < q0.len() implies q1[i] == q0[i] by {
                assert(q1.subrange(0, q0.len() as int)[i] == q0[i]);
            }
        }
    }
    let mut k: usize = 0;
    while k < manual.len()
        invariant
            k <= manual@.len(),
            ty0.spec_is_named(),
            fresh == fresh_traits(item.traits@, old_built@),
            compat == settings.typify_compat,
            forall|i: int| 0 <= i < manual@.len() ==> fresh.contains((#[trigger] manual@[i]).0) && !feas_impossible(ty0, manual@[i].0, compat)
                && ids_of(manual@[i].1@) == feas_targets(ty0, manual@[i].0, compat),
            work@.len() >= q1.len(),
            work@.subrange(0, q1.len() as int) == q1,
            forall|i: int| q1.len() <= i < work@.len() ==> exists|a: int| 0 <= a < k && (#[trigger] work@[i]).traits@ == Set::empty().insert(manual@[a].0)
                && ids_of(manual@[a].1@).contains(work@[i].target),
            forall|a: int, c: u64| 0 <= a < k && #[trigger] ids_of(manual@[a].1@).contains(c) ==> pending(work@, c, manual@[a].0),
            forall|i: int| 0 <= i < manual@.len() ==> (#[trigger] manual@[i]).1@ == manual_children(ty0, manual@[i].0),
            q1.len() >= q0.len(),
            q1.subrange(0, q0.len() as int) == q0,
            work@.subrange(0, q0.len() as int) == q0,
            items_hop(work@, q0.len() as int, ty0, *item),
        decreases manual@.len() - k,
    {
        let ghost before = work@;
        let x = manual[k].0;
        let obl = &manual[k].1;
        push_kids(work, item.target, obl, just(x), &item.origin, &item.path);
        proof {
            lemma_pending_prefix(before, work@);
            assert(work@.subrange(0, q1.len() as int) == before.subrange(0, q1.len() as int));
            assert forall|i: int| q1.len() <= i < work@.len() implies exists|a: int| 0 <= a < k + 1 && (#[trigger] work@[i]).traits@ == Set::empty().insert(manual@[a].0)
                && ids_of(manual@[a].1@).contains(work@[i].target) by {
                if i < before.len() {
                    assert(work@[i] == before[i]);
                    let a = choose|a: int| 0 <= a < k && (#[trigger] before[i]).traits@ == Set::empty().insert(manual@[a].0)
                        && ids_of(manual@[a].1@).contains(before[i].target);
                } else {
                    let b = i - before.len();
                    assert(work@[before.len() + b].target == obl@[b].id);
                    assert(ids_of(obl@)[b] == obl@[b].id);
                    assert(ids_of(manual@[k as int].1@).contains(work@[i].target));
                }
            }
            assert(work@.subrange(0, q0.len() as int) =~= before.subrange(0, q0.len() as int)) by {
                assert forall|i: int| 0 <= i < q0.len() implies work@[i] == before[i] by {
                    assert(work@.subrange(0, before.len() as int)[i] == before[i]);
                }
            }
            assert forall|i: int| q0.len() <= i < work@.len() implies (#[trigger] work@[i]).origin == item.origin
                && work@[i].path@.len() == item.path@.len() + 1 && work@[i].path@.drop_last() == item.path@
                && work@[i].path@.last().type_id == item.target && ty_hop(ty0, work@[i].path@.last().relation, work@[i].target) by {
                if i < before.len() {
                    assert(work@[i] == before[i]);
                } else {
                    let b = i - before.len();
                    assert(work@[before.len() + b] == work@[i]);
                    assert(work@[i].path@ == item.path@.push(PathStep { type_id: item.target, relation: obl@[b].relation }));
                    assert(work@[i].path@.drop_last() =~= item.path@);
                    assert(obl@ == manual_children(ty0, x));
                    lemma_manual_hops(ty0, x, b);
                }
            }
            assert forall|a: int, c: u64| 0 <= a < k + 1 && #[trigger] ids_of(manual@[a].1@).contains(c) implies pending(work@, c, manual@[a].0) by {
                if a == k {
                    let b = choose|b: int| 0 <= b < ids_of(obl@).len() && ids_of(obl@)[b] == c;
                    assert(work@[before.len() + b].target == c);
                    assert(work@[before.len() + b].traits@.contains(x));
                }
            }
        }
        k = k + 1;
    }
    proof {
        lemma_pending_prefix(q1, work@);
        assert forall|i: int, y: TypespaceTrait|
            q0.len() <= i < work@.len() && #[trigger] work@[i].traits@.contains(y) implies exists|x: TypespaceTrait|
                fresh.contains(x) && #[trigger] step_at(ty0, *settings, x, work@[i].target, y) by {
            if i < q1.len() {
                let kk = i - q0.len();
                assert(work@[i] == q1[i]);
                assert(q1[q0.len() + kk].target == kids_ids[kk]);
                assert(derivable_new@.contains(y));
                assert(kids_ids.contains(kids_ids[kk]));
                assert(step_at(ty0, *settings, y, work@[i].target, y));
            } else {
                let a = choose|a: int| 0 <= a < manual@.len() && (#[trigger] work@[i]).traits@ == Set::empty().insert(manual@[a].0)
                    && ids_of(manual@[a].1@).contains(work@[i].target);
                assert(y == manual@[a].0);
                assert(step_at(ty0, *settings, y, work@[i].target, y));
            }
        }
        assert forall|x: TypespaceTrait, c: u64, y: TypespaceTrait|
            fresh.contains(x) && #[trigger] step_at(ty0, *settings, x, c, y) implies pending(work@, c, y) by {
            assert(y == x);
            assert(members@.take(members@.len() as int).contains(x));
            if derivable_new@.contains(x) {
                let kk = choose|kk: int| 0 <= kk < kids_ids.len() && kids_ids[kk] == c;
                assert(q1[q0.len() + kk].target == c);
                assert(work@[q0.len() + kk] == q1[q0.len() + kk]);
                assert(work@[q0.len() + kk].traits@.contains(x));
            } else if exists|a: int| 0 <= a < manual@.len() && (#[trigger] manual@[a]).0 == x {
                let a = choose|a: int| 0 <= a < manual@.len() && (#[trigger] manual@[a]).0 == x;
                assert(ids_of(manual@[a].1@).contains(c));
            } else {
                assert(feas_targets(ty0, x, compat).len() == 0);
            }
        }
        assert forall|i: int| q0.len() <= i < work@.len() implies ty0.spec_children().contains(#[trigger] work@[i].target) by {
            if i < q1.len() {
                let kk = i - q0.len();
                assert(work@[i] == q1[i]);
                assert(q1[q0.len() + kk].target == kids_ids[kk]);
                assert(kids_ids.contains(kids_ids[kk]));
            } else {
                let a = choose|a: int| 0 <= a < manual@.len() && (#[trigger] work@[i]).traits@ == Set::empty().insert(manual@[a].0)
                    && ids_of(manual@[a].1@).contains(work@[i].target);
                lemma_feas_targets_children(ty0, manual@[a].0, compat, work@[i].target);
            }
        }
        assert(built@ == old_built@ ==> work@.len() == q0.len()) by {
            if built@ == old_built@ {
                assert(derivable_new@ =~= Set::<TypespaceTrait>::empty());
                assert(manual@.len() == 0) by {
                    if manual@.len() > 0 {
                        assert(built@.contains(manual@[0].0));
                    }
                }
                assert(q1.len() == q0.len());
                assert(work@.len() == q1.len()) by {
                    if work@.len() > q1.len() {
                        let i = q1.len() as int;
                        assert(exists|a: int| 0 <= a < k && (#[trigger] work@[i]).traits@ == Set::empty().insert(manual@[a].0)
                            && ids_of(manual@[a].1@).contains(work@[i].target));
                    }
                }
            }
        }
        assert(conflicts_recorded(conflicts@, cs0.len() as int, ty0, *settings, item.target, fresh));
        assert(old_built == ty0.built_of()->0);
        assert(ty.built_of()->0 == built);
        assert(ty.built_of()->0@ == ty0.built_of()->0@ ==> built@ == old_built@);
        assert(built@ == old_built@ ==> work@.len() == q0.len());
    }
}

/// The children of a type that holds its children inline are its
/// contained children.
proof fn lemma_contained_children(ty: Type)
    ensures
        forall|c: u64| #[trigger] ty.spec_contained().contains(c) ==> ty.spec_children().contains(c),
{
}

pub proof fn lemma_default_obligations_in(props: Seq<StructProperty>, default: Option<JsonValue>, c: u64)
    requires
        default_obligations(props, default).contains(c),
    ensures
        crate::build::property_ids(props).contains(c),
    decreases props.len(),
{
    if props.len() > 0 {
        let rest = default_obligations(props.drop_last(), default);
        let k = choose|k: int| 0 <= k < default_obligations(props, default).len() && default_obligations(props, default)[k] == c;
        if k < rest.len() {
            assert(rest[k] == c);
            lemma_default_obligations_in(props.drop_last(), default, c);
            let j = choose|j: int| 0 <= j < crate::build::property_ids(props.drop_last()).len() && crate::build::property_ids(props.drop_last())[j] == c;
            assert(crate::build::property_ids(props)[j] == c);
        } else {
            assert(c == props.last().type_id);
            assert(crate::build::property_ids(props)[props.len() - 1] == c);
        }
    }
}

/// What a named type's realization needs is among its children.
pub proof fn lemma_feas_targets_children(ty: Type, x: TypespaceTrait, compat: bool, c: u64)
    requires
        feas_targets(ty, x, compat).contains(c),
    ensures
        ty.spec_children().contains(c),
{
    match ty {
        Type::Struct(st) => {
            if x == TypespaceTrait::Default && !feas_impossible(ty, x, compat) {
                lemma_default_obligations_in(st.properties@, st.common.default, c);
            }
        },
        Type::NewtypeStruct(n) => {
            assert(ty.spec_children()[0] == n.inner);
            let k = choose|k: int| 0 <= k < feas_targets(ty, x, compat).len() && feas_targets(ty, x, compat)[k] == c;
        },
        _ => {},
    }
}

/// Two types that differ only in what finalization recorded behave alike
/// under every requirement.
proof fn lemma_agree_step(a: Type, b: Type, s: Settings)
    requires
        a.agrees_except_built(b),
    ensures
        a.spec_is_named() == b.spec_is_named(),
        a.spec_children() == b.spec_children(),
        a.spec_contained() == b.spec_contained(),
        forall|x: TypespaceTrait, c: u64, y: TypespaceTrait| step_at(a, s, x, c, y) == step_at(b, s, x, c, y),
        forall|x: TypespaceTrait| conflict_at(a, s, x) == conflict_at(b, s, x),
        forall|x: TypespaceTrait| feas_impossible(a, x, s.typify_compat) == feas_impossible(b, x, s.typify_compat),
        forall|r: OffenderReason, x: TypespaceTrait| reason_fits(r, a, s, x) == reason_fits(r, b, s, x),
        !a.spec_is_named() ==> a == b,
{
    match (a, b) {
        (Type::Enum(x), Type::Enum(y)) => {
            assert(x.variants == y.variants);
            assert(x.tag_type == y.tag_type);
            assert(x.common.default == y.common.default);
            assert(x.from_str_refusal == y.from_str_refusal);
        },
        (Type::Struct(x), Type::Struct(y)) => {
            assert(x.properties == y.properties);
            assert(x.common.default == y.common.default);
        },
        (Type::TupleStruct(x), Type::TupleStruct(y)) => {
            assert(x.fields == y.fields);
            assert(x.rest == y.rest);
            assert(x.common.default == y.common.default);
        },
        (Type::NewtypeStruct(x), Type::NewtypeStruct(y)) => {
            assert(x.inner == y.inner);
            assert(x.constraints == y.constraints);
            assert(x.common.default == y.common.default);
        },
        (Type::TypeAlias(x), Type::TypeAlias(y)) => {
            assert(x.target == y.target);
        },
        (Type::UnitStruct(x), Type::UnitStruct(y)) => {
            assert(x.common.default == y.common.default);
        },
        _ => {},
    }
}

proof fn lemma_pending_pop(q: Seq<WorkItem>, c: u64, y: TypespaceTrait)
    requires
        q.len() > 0,
        pending(q, c, y),
    ensures
        pending(q.drop_first(), c, y) || (q[0].target == c && q[0].traits@.contains(y)),
{
    let i = choose|i: int| 0 <= i < q.len() && q[i].target == c && #[trigger] q[i].traits@.contains(y);
    if i > 0 {
        assert(q.drop_first()[i - 1] == q[i]);
    }
}

proof fn lemma_queue_weight_append(m: Map<u64, Type>, rank: Map<u64, nat>, q1: Seq<WorkItem>, q2: Seq<WorkItem>, kids: Seq<u64>)
    requires
        q2.len() == q1.len() + kids.len(),
        q2.subrange(0, q1.len() as int) == q1,
        forall|k: int| 0 <= k < kids.len() ==> (#[trigger] q2[q1.len() + k]).target == kids[k],
    ensures
        queue_weight(m, rank, q2) == queue_weight(m, rank, q1) + list_weight(m, rank, kids),
    decreases kids.len(),
{
    if kids.len() == 0 {
        assert(q2 == q1);
    } else {
        let q3 = q2.drop_last();
        let k2 = kids.drop_last();
        assert(q3.subrange(0, q1.len() as int) == q1);
        assert forall|k: int| 0 <= k < k2.len() implies (#[trigger] q3[q1.len() + k]).target == k2[k] by {
            assert(q3[q1.len() + k] == q2[q1.len() + k]);
        }
        lemma_queue_weight_append(m, rank, q1, q3, k2);
        assert(q2.last().target == kids.last()) by {
            assert(q2[q1.len() + (kids.len() - 1)].target == kids[kids.len() - 1]);
        }
    }
}

/// The pairs whose type is in `d`.
pub open spec fn pairs_over(d: Set<u64>) -> Set<Pair> {
    Set::new(|p: Pair| d.contains(p.0))
}

pub(crate) proof fn lemma_pairs_finite(d: Set<u64>)
    requires
        d.finite(),
    ensures
        pairs_over(d).finite(),
    decreases d.len(),
{
    if d.len() == 0 {
        assert(pairs_over(d) =~= Set::<Pair>::empty());
    } else {
        let a = d.choose();
        lemma_pairs_finite(d.remove(a));
        let row = crate::traits::all_traits_seq().to_set().map(|x: TypespaceTrait| (a, x));
        crate::traits::all_traits_seq().to_set().lemma_map_finite(|x: TypespaceTrait| (a, x));
        assert forall|p: Pair| #[trigger] pairs_over(d).contains(p) implies pairs_over(d.remove(a)).union(row).contains(p) by {
            if p.0 == a {
                crate::traits::lemma_trait_index(p.1);
                assert(crate::traits::all_traits_seq()[crate::traits::trait_index(p.1)] == p.1);
                assert(crate::traits::all_traits_seq().to_set().contains(p.1));
            }
        }
        assert(pairs_over(d).subset_of(pairs_over(d.remove(a)).union(row)));
        vstd::set_lib::lemma_set_union_finite_iff(pairs_over(d.remove(a)), row);
        vstd::set_lib::lemma_set_subset_finite(pairs_over(d.remove(a)).union(row), pairs_over(d));
    }
}

/// The pairs a named type of `m` has absorbed.
pub open spec fn absorbed(m: Map<u64, Type>) -> Set<Pair> {
    Set::new(
        |p: Pair|
            m.contains_key(p.0) && m[p.0].spec_is_named() && m[p.0].built_of() is Some && m[p.0].built_of()->0@.contains(
                p.1,
            ),
    )
}

/// Each item's pairs were reached, every reached pair processed so far
/// is in `done`, and `done` is closed but for the pairs still queued.
pub open spec fn resolution_inv(
    m0: Map<u64, Type>,
    s: Settings,
    m: Map<u64, Type>,
    work: Seq<WorkItem>,
    done: Set<Pair>,
    conflicts: Seq<TraitConflict>,
) -> bool {
    &&& m.dom() == m0.dom()
    &&& forall|t: u64| #[trigger] m.contains_key(t) ==> m[t].agrees_except_built(m0[t])
    &&& forall|t: u64| #[trigger] m.contains_key(t) && m[t].spec_is_named() ==> m[t].built_of() is Some
    &&& items_reached(m0, s, work)
    &&& forall|p: Pair| #[trigger] done.contains(p) ==> m0.contains_key(p.0) && reached(m0, s, p.0, p.1)
    &&& forall|t: u64, c: u64, y: TypespaceTrait| #[trigger] seed_at(m0, s, t, c, y) ==> done.contains((c, y)) || pending(work, c, y)
    &&& forall|t: u64, x: TypespaceTrait, c: u64, y: TypespaceTrait|
        done.contains((t, x)) && #[trigger] req_step(m0, s, t, x, c, y) ==> done.contains((c, y)) || pending(work, c, y)
    &&& forall|t: u64, x: TypespaceTrait|
        m.contains_key(t) && m[t].spec_is_named() ==> (#[trigger] m[t].built_of()->0@.contains(x) <==> done.contains((t, x))
            && !local_conflict(m0, s, t, x))
    &&& forall|i: int| 0 <= i < conflicts.len() ==> done.contains(((#[trigger] conflicts[i]).offender, conflicts[i].required))
        && local_conflict(m0, s, conflicts[i].offender, conflicts[i].required)
        && reason_fits(conflicts[i].reason, m0[conflicts[i].offender], s, conflicts[i].required)
    &&& forall|p: Pair| #[trigger] done.contains(p) && local_conflict(m0, s, p.0, p.1) ==> exists|i: int|
        0 <= i < conflicts.len() && (#[trigger] conflicts[i]).offender == p.0 && conflicts[i].required == p.1
}

/// The pairs an item holds.
pub open spec fn item_pairs(item: WorkItem) -> Set<Pair> {
    Set::new(|p: Pair| p.0 == item.target && item.traits@.contains(p.1))
}

/// Processing the front item at a named type keeps resolution
/// consistent.
proof fn lemma_after_named(
    m0: Map<u64, Type>,
    s: Settings,
    m: Map<u64, Type>,
    ty1: Type,
    q: Seq<WorkItem>,
    q1: Seq<WorkItem>,
    done: Set<Pair>,
    cs: Seq<TraitConflict>,
    cs1: Seq<TraitConflict>,
)
    requires
        closed(m0),
        resolution_inv(m0, s, m, q, done, cs),
        q.len() > 0,
        m.contains_key(q[0].target),
        m[q[0].target].spec_is_named(),
        ty1.agrees_except_built(m[q[0].target]),
        ty1.spec_is_named(),
        ty1.built_of() is Some,
        ty1.built_of()->0@ == m[q[0].target].built_of()->0@.union(feasible_traits(m[q[0].target], s, q[0].traits@)),
        q1.len() >= q.len() - 1,
        q1.subrange(0, q.len() - 1) == q.drop_first(),
        items_succeed(q1, q.len() - 1, m[q[0].target], s, fresh_traits(q[0].traits@, m[q[0].target].built_of()->0@)),
        forall|x: TypespaceTrait, c: u64, y: TypespaceTrait|
            fresh_traits(q[0].traits@, m[q[0].target].built_of()->0@).contains(x) && #[trigger] step_at(m[q[0].target], s, x, c, y)
                ==> pending(q1, c, y),
        forall|i: int| q.len() - 1 <= i < q1.len() ==> m[q[0].target].spec_children().contains(#[trigger] q1[i].target),
        cs1.len() >= cs.len(),
        cs1.subrange(0, cs.len() as int) == cs,
        conflicts_recorded(cs1, cs.len() as int, m[q[0].target], s, q[0].target, fresh_traits(q[0].traits@, m[q[0].target].built_of()->0@)),
    ensures
        resolution_inv(m0, s, m.insert(q[0].target, ty1), q1, done.union(item_pairs(q[0])), cs1),
{
    let item = q[0];
    let t = item.target;
    let ty0 = m[t];
    let m1 = m.insert(t, ty1);
    let done1 = done.union(item_pairs(item));
    let fresh = fresh_traits(item.traits@, ty0.built_of()->0@);
    lemma_agree_step(ty0, m0[t], s);
    assert(ty1.without_built() == m0[t].without_built());
    assert(m1.dom() =~= m0.dom());
    lemma_pending_prefix(q.drop_first(), q1);
    assert(item.traits@.contains(item.traits@.choose()) ==> true);
    assert forall|i: int| 0 <= i < q1.len() implies m0.contains_key(#[trigger] q1[i].target) by {
        if i < q.len() - 1 {
            assert(q1[i] == q.drop_first()[i]);
            assert(q.drop_first()[i] == q[i + 1]);
        } else {
            assert(m0[t].spec_children().contains(q1[i].target));
        }
    }
    assert forall|i: int, y: TypespaceTrait| 0 <= i < q1.len() && #[trigger] q1[i].traits@.contains(y) implies reached(m0, s, q1[i].target, y) by {
        if i < q.len() - 1 {
            assert(q1.subrange(0, q.len() - 1)[i] == q1[i]);
            assert(q.drop_first()[i] == q[i + 1]);
            assert(q1[i] == q[i + 1]);
        } else {
            let x = choose|x: TypespaceTrait| fresh.contains(x) && #[trigger] step_at(ty0, s, x, q1[i].target, y);
            assert(item.traits@.contains(x));
            assert(reached(m0, s, t, x));
            assert(req_step(m0, s, t, x, q1[i].target, y));
            lemma_step_reached(m0, s, t, x, q1[i].target, y);
        }
    }
    assert forall|p: Pair| #[trigger] done1.contains(p) implies m0.contains_key(p.0) && reached(m0, s, p.0, p.1) by {
        if !done.contains(p) {
            assert(item_pairs(item).contains(p));
            assert(item.traits@.contains(p.1));
        }
    }
    assert forall|t2: u64, c: u64, y: TypespaceTrait| #[trigger] seed_at(m0, s, t2, c, y) implies done1.contains((c, y)) || pending(q1, c, y) by {
        if !done.contains((c, y)) {
            lemma_pending_pop(q, c, y);
            if !pending(q.drop_first(), c, y) {
                assert(item_pairs(item).contains((c, y)));
            }
        }
    }
    assert forall|t2: u64, x: TypespaceTrait, c: u64, y: TypespaceTrait|
        done1.contains((t2, x)) && #[trigger] req_step(m0, s, t2, x, c, y) implies done1.contains((c, y)) || pending(q1, c, y) by {
        if done.contains((t2, x)) {
            if !done.contains((c, y)) {
                lemma_pending_pop(q, c, y);
                if !pending(q.drop_first(), c, y) {
                    assert(item_pairs(item).contains((c, y)));
                }
            }
        } else {
            assert(t2 == t && item.traits@.contains(x));
            if fresh.contains(x) {
                assert(step_at(ty0, s, x, c, y));
            } else {
                assert(ty0.built_of()->0@.contains(x));
                assert(done.contains((t, x)));
                if !done.contains((c, y)) {
                    lemma_pending_pop(q, c, y);
                    if !pending(q.drop_first(), c, y) {
                        assert(item_pairs(item).contains((c, y)));
                    }
                }
            }
        }
    }
    assert forall|t2: u64, x: TypespaceTrait|
        m1.contains_key(t2) && m1[t2].spec_is_named() implies (#[trigger] m1[t2].built_of()->0@.contains(x) <==> done1.contains((t2, x))
            && !local_conflict(m0, s, t2, x)) by {
        if t2 != t {
            assert(m1[t2] == m[t2]);
            assert(done1.contains((t2, x)) == done.contains((t2, x)));
        } else {
            assert(local_conflict(m0, s, t, x) == feas_impossible(ty0, x, s.typify_compat));
            if item.traits@.contains(x) {
                assert(done1.contains((t, x)));
            } else {
                assert(done1.contains((t, x)) == done.contains((t, x)));
            }
        }
    }
    assert forall|i: int| 0 <= i < cs1.len() implies done1.contains(((#[trigger] cs1[i]).offender, cs1[i].required))
        && local_conflict(m0, s, cs1[i].offender, cs1[i].required)
        && reason_fits(cs1[i].reason, m0[cs1[i].offender], s, cs1[i].required) by {
        if i < cs.len() {
            assert(cs1[i] == cs[i]);
        } else {
            assert(item_pairs(item).contains((cs1[i].offender, cs1[i].required)));
        }
    }
    assert forall|p: Pair| #[trigger] done1.contains(p) && local_conflict(m0, s, p.0, p.1) implies exists|i: int|
        0 <= i < cs1.len() && (#[trigger] cs1[i]).offender == p.0 && cs1[i].required == p.1 by {
        if done.contains(p) {
            let i = choose|i: int| 0 <= i < cs.len() && (#[trigger] cs[i]).offender == p.0 && cs[i].required == p.1;
            assert(cs1[i] == cs[i]);
        } else {
            assert(p.0 == t && item.traits@.contains(p.1));
            assert(!ty0.built_of()->0@.contains(p.1));
            assert(fresh.contains(p.1));
            assert(conflict_at(ty0, s, p.1));
        }
    }
}

/// Processing the front item at an anonymous type keeps resolution
/// consistent.
proof fn lemma_after_anonymous(
    m0: Map<u64, Type>,
    s: Settings,
    m: Map<u64, Type>,
    q: Seq<WorkItem>,
    q1: Seq<WorkItem>,
    done: Set<Pair>,
    cs: Seq<TraitConflict>,
    cs1: Seq<TraitConflict>,
)
    requires
        closed(m0),
        resolution_inv(m0, s, m, q, done, cs),
        q.len() > 0,
        m.contains_key(q[0].target),
        !m[q[0].target].spec_is_named(),
        q1.len() >= q.len() - 1,
        q1.subrange(0, q.len() - 1) == q.drop_first(),
        items_succeed(q1, q.len() - 1, m[q[0].target], s, q[0].traits@),
        targets_children(q1, q.len() - 1, m[q[0].target]),
        forall|x: TypespaceTrait, c: u64, y: TypespaceTrait|
            q[0].traits@.contains(x) && #[trigger] step_at(m[q[0].target], s, x, c, y) ==> pending(q1, c, y),
        cs1.len() >= cs.len(),
        cs1.subrange(0, cs.len() as int) == cs,
        conflicts_recorded(cs1, cs.len() as int, m[q[0].target], s, q[0].target, q[0].traits@),
    ensures
        resolution_inv(m0, s, m, q1, done.union(item_pairs(q[0])), cs1),
{
    let item = q[0];
    let t = item.target;
    let ty0 = m[t];
    let done1 = done.union(item_pairs(item));
    lemma_agree_step(ty0, m0[t], s);
    assert(ty0 == m0[t]);
    lemma_pending_prefix(q.drop_first(), q1);
    assert forall|i: int| 0 <= i < q1.len() implies m0.contains_key(#[trigger] q1[i].target) by {
        if i < q.len() - 1 {
            assert(q1[i] == q.drop_first()[i]);
            assert(q.drop_first()[i] == q[i + 1]);
        } else {
            let k = i - (q.len() - 1);
            assert(q1[q.len() - 1 + k].target == ty0.spec_children()[k]);
            assert(ty0.spec_children().contains(q1[i].target));
        }
    }
    assert forall|i: int, y: TypespaceTrait| 0 <= i < q1.len() && #[trigger] q1[i].traits@.contains(y) implies reached(m0, s, q1[i].target, y) by {
        if i < q.len() - 1 {
            assert(q1.subrange(0, q.len() - 1)[i] == q1[i]);
            assert(q.drop_first()[i] == q[i + 1]);
            assert(q1[i] == q[i + 1]);
        } else {
            let x = choose|x: TypespaceTrait| item.traits@.contains(x) && #[trigger] step_at(ty0, s, x, q1[i].target, y);
            assert(reached(m0, s, t, x));
            assert(req_step(m0, s, t, x, q1[i].target, y));
            lemma_step_reached(m0, s, t, x, q1[i].target, y);
        }
    }
    assert forall|p: Pair| #[trigger] done1.contains(p) implies m0.contains_key(p.0) && reached(m0, s, p.0, p.1) by {
        if !done.contains(p) {
            assert(item_pairs(item).contains(p));
            assert(item.traits@.contains(p.1));
        }
    }
    assert forall|t2: u64, c: u64, y: TypespaceTrait| #[trigger] seed_at(m0, s, t2, c, y) implies done1.contains((c, y)) || pending(q1, c, y) by {
        if !done.contains((c, y)) {
            lemma_pending_pop(q, c, y);
            if !pending(q.drop_first(), c, y) {
                assert(item_pairs(item).contains((c, y)));
            }
        }
    }
    assert forall|t2: u64, x: TypespaceTrait, c: u64, y: TypespaceTrait|
        done1.contains((t2, x)) && #[trigger] req_step(m0, s, t2, x, c, y) implies done1.contains((c, y)) || pending(q1, c, y) by {
        if done.contains((t2, x)) {
            if !done.contains((c, y)) {
                lemma_pending_pop(q, c, y);
                if !pending(q.drop_first(), c, y) {
                    assert(item_pairs(item).contains((c, y)));
                }
            }
        } else {
            assert(t2 == t && item.traits@.contains(x));
            assert(step_at(ty0, s, x, c, y));
        }
    }
    assert forall|t2: u64, x: TypespaceTrait|
        m.contains_key(t2) && m[t2].spec_is_named() implies (#[trigger] m[t2].built_of()->0@.contains(x) <==> done1.contains((t2, x))
            && !local_conflict(m0, s, t2, x)) by {
        assert(t2 != t);
        assert(done1.contains((t2, x)) == done.contains((t2, x)));
    }
    assert forall|i: int| 0 <= i < cs1.len() implies done1.contains(((#[trigger] cs1[i]).offender, cs1[i].required))
        && local_conflict(m0, s, cs1[i].offender, cs1[i].required)
        && reason_fits(cs1[i].reason, m0[cs1[i].offender], s, cs1[i].required) by {
        if i < cs.len() {
            assert(cs1[i] == cs[i]);
        } else {
            assert(item_pairs(item).contains((cs1[i].offender, cs1[i].required)));
        }
    }
    assert forall|p: Pair| #[trigger] done1.contains(p) && local_conflict(m0, s, p.0, p.1) implies exists|i: int|
        0 <= i < cs1.len() && (#[trigger] cs1[i]).offender == p.0 && cs1[i].required == p.1 by {
        if done.contains(p) {
            let i = choose|i: int| 0 <= i < cs.len() && (#[trigger] cs[i]).offender == p.0 && cs[i].required == p.1;
            assert(cs1[i] == cs[i]);
        } else {
            assert(p.0 == t && item.traits@.contains(p.1));
            assert(conflict_at(ty0, s, p.1));
        }
    }
}

/// The conflicts are exactly the reached local conflicts: each entry is
/// one, and each one has an entry.
pub open spec fn conflicts_exact(cs: Seq<TraitConflict>, m: Map<u64, Type>, s: Settings) -> bool {
    &&& forall|i: int| 0 <= i < cs.len() ==> reached(m, s, (#[trigger] cs[i]).offender, cs[i].required) && local_conflict(
        m,
        s,
        cs[i].offender,
        cs[i].required,
    ) && reason_fits(cs[i].reason, m[cs[i].offender], s, cs[i].required) && provenance(
        m,
        s,
        cs[i].origin,
        cs[i].path@,
        cs[i].offender,
    )
    &&& forall|t: u64, x: TypespaceTrait| #[trigger] reached(m, s, t, x) && local_conflict(m, s, t, x) ==> exists|i: int|
        0 <= i < cs.len() && (#[trigger] cs[i]).offender == t && cs[i].required == x
}

/// Every named type of `m` has an empty trait set recorded.
pub open spec fn builts_empty(m: Map<u64, Type>) -> bool {
    forall|t: u64| #[trigger] m.contains_key(t) && m[t].spec_is_named() ==> m[t].built_of() is Some
        && m[t].built_of()->0@ == Set::<TypespaceTrait>::empty()
}

/// What required resolution of `m0` under `s` produced `m`: every type is
/// as it was but for the traits recorded, and each named type records
/// exactly the traits granted it.
pub open spec fn required_resolved(m0: Map<u64, Type>, s: Settings, m: Map<u64, Type>) -> bool {
    &&& m.dom() == m0.dom()
    &&& forall|t: u64| #[trigger] m.contains_key(t) ==> m[t].agrees_except_built(m0[t])
    &&& forall|t: u64| #[trigger] m.contains_key(t) && m[t].spec_is_named() ==> m[t].built_of() is Some
        && m[t].built_of()->0@ == granted(m0, s, t)
}

/// Resolve required traits.
///
/// Requirements start from the seeds and travel pair by pair, breadth
/// first; each named type absorbs what it can satisfy and passes it on to
/// the types its realization needs. Every unsatisfiable requirement, each
/// time it is reached, is collected into [`Error::TraitConflicts`]: the
/// result is `Ok` exactly when no reached requirement is a local
/// conflict.
pub fn required_resolution(types: &mut BTreeMap<u64, Type>, settings: &Settings) -> (r: Result<(), Error>)
    requires
        closed(old(types)@),
        anon_acyclic(old(types)@),
        containers_ok(*settings),
        natives_ok(old(types)@),
        builts_empty(old(types)@),
        refusals_recorded(old(types)@),
    ensures
        required_resolved(old(types)@, *settings, final(types)@),
        r is Ok <==> requirements_met(old(types)@, *settings),
        r matches Err(e) ==> e matches Error::TraitConflicts { conflicts } && conflicts_exact(conflicts@, old(types)@, *settings),
{
    proof {
        lemma_u64_key_order();
    }
    let ghost m0 = types@;
    let ghost rank = choose|r: Map<u64, nat>| anon_ranked(m0, r);
    let mut work = seed_requirements(types, settings);
    let mut conflicts: Vec<TraitConflict> = Vec::new();
    let ghost mut done: Set<Pair> = Set::empty();
    proof {
        vstd::std_specs::btree::axiom_btree_map_view_finite_dom(*types);
        lemma_pairs_finite(m0.dom());
        assert forall|t: u64| #[trigger] types@.contains_key(t) implies types@[t].agrees_except_built(m0[t]) by {}
        assert forall|t: u64, x: TypespaceTrait|
            types@.contains_key(t) && types@[t].spec_is_named() implies (#[trigger] types@[t].built_of()->0@.contains(x) <==> done.contains((t, x))
                && !local_conflict(m0, *settings, t, x)) by {}
        assert(resolution_inv(m0, *settings, types@, work@, done, conflicts@));
        assert(absorbed(types@).subset_of(pairs_over(m0.dom())));
    }
    while work.len() > 0
        invariant
            closed(m0),
            anon_ranked(m0, rank),
            pairs_over(m0.dom()).finite(),
            resolution_inv(m0, *settings, types@, work@, done, conflicts@),
            traced_inv(m0, *settings, work@, conflicts@),
            absorbed(types@).subset_of(pairs_over(m0.dom())),
        decreases pairs_over(m0.dom()).difference(absorbed(types@)).len(), queue_weight(m0, rank, work@),
    {
        let ghost q = work@;
        let ghost m = types@;
        let ghost cs = conflicts@;
        let item = work.pop_front().unwrap();
        proof {
            assert(item == q[0]);
            assert(work@ == q.drop_first());
            lemma_queue_weight_front(m0, rank, q);
            assert(m.contains_key(item.target));
        }
        let t = item.target;
        let named = types.get(&t).unwrap().is_named();
        if named {
            let mut ty = types.remove(&t).unwrap();
            let ghost ty0 = ty;
            let ghost q_popped = work@;
            process_named(&mut ty, &item, settings, &mut work, &mut conflicts);
            types.insert(t, ty);
            proof {
                lemma_traced_after(m0, *settings, m, q, work@, cs, conflicts@);
                assert(types@ == m.insert(t, ty));
                lemma_after_named(m0, *settings, m, ty, q, work@, done, cs, conflicts@);
                assert(absorbed(types@).subset_of(pairs_over(m0.dom())));
                if ty.built_of()->0@ == ty0.built_of()->0@ {
                    assert(absorbed(types@) =~= absorbed(m));
                    assert(work@ == q_popped) by {
                        assert(work@ =~= work@.subrange(0, q_popped.len() as int));
                    }
                } else {
                    assert(exists|x: TypespaceTrait| ty.built_of()->0@.contains(x) && !ty0.built_of()->0@.contains(x)) by {
                        if !(exists|x: TypespaceTrait| ty.built_of()->0@.contains(x) && !ty0.built_of()->0@.contains(x)) {
                            assert(ty.built_of()->0@ =~= ty0.built_of()->0@);
                        }
                    }
                    let x = choose|x: TypespaceTrait| ty.built_of()->0@.contains(x) && !ty0.built_of()->0@.contains(x);
                    assert(m[t] == ty0);
                    assert(types@[t] == ty);
                    assert(absorbed(types@).contains((t, x)));
                    assert(!absorbed(m).contains((t, x)));
                    assert(absorbed(m).subset_of(absorbed(types@)));
                    let u = pairs_over(m0.dom());
                    assert(u.difference(absorbed(types@)).subset_of(u.difference(absorbed(m))));
                    assert(u.difference(absorbed(m)).contains((t, x)));
                    assert(!u.difference(absorbed(types@)).contains((t, x)));
                    vstd::set_lib::lemma_set_subset_finite(u, u.difference(absorbed(m)));
                    u.difference(absorbed(types@)).lemma_subset_not_in_lt(u.difference(absorbed(m)), (t, x));
                }
            }
            proof {
                done = done.union(item_pairs(item));
            }
        } else {
            let ghost q_popped = work@;
            process_anonymous(types.get(&t).unwrap(), &item, settings, &mut work, &mut conflicts);
            proof {
                lemma_traced_after(m0, *settings, m, q, work@, cs, conflicts@);
                lemma_after_anonymous(m0, *settings, m, q, work@, done, cs, conflicts@);
                lemma_agree_step(m[t], m0[t], *settings);
                if work@.len() == q_popped.len() {
                    assert(work@ =~= q_popped);
                } else {
                    lemma_weight_unfold(m0, rank, t);
                    lemma_queue_weight_append(m0, rank, q_popped, work@, m0[t].spec_children());
                }
                done = done.union(item_pairs(item));
            }
        }
    }
    proof {
        assert(req_closed(m0, *settings, done)) by {
            assert forall|t2: u64, c: u64, y: TypespaceTrait| #[trigger] seed_at(m0, *settings, t2, c, y) implies done.contains((c, y)) by {
                assert(!pending(work@, c, y));
            }
            assert forall|t2: u64, x: TypespaceTrait, c: u64, y: TypespaceTrait|
                done.contains((t2, x)) && #[trigger] req_step(m0, *settings, t2, x, c, y) implies done.contains((c, y)) by {
                assert(!pending(work@, c, y));
            }
        }
        assert forall|t2: u64, x: TypespaceTrait| reached(m0, *settings, t2, x) implies #[trigger] done.contains((t2, x)) by {
            lemma_closed_holds_reached(m0, *settings, done, t2, x);
        }
        assert forall|t2: u64| #[trigger] types@.contains_key(t2) && types@[t2].spec_is_named() implies types@[t2].built_of() is Some
            && types@[t2].built_of()->0@ == granted(m0, *settings, t2) by {
            assert(types@[t2].built_of()->0@ =~= granted(m0, *settings, t2));
        }
    }
    if conflicts.len() == 0 {
        proof {
            assert forall|t2: u64, x: TypespaceTrait| #[trigger] reached(m0, *settings, t2, x) implies !local_conflict(m0, *settings, t2, x) by {
                assert(done.contains((t2, x)));
            }
        }
        Ok(())
    } else {
        proof {
            let c0 = conflicts@[0];
            assert(reached(m0, *settings, c0.offender, c0.required));
            assert(local_conflict(m0, *settings, c0.offender, c0.required));
            assert forall|t2: u64, x: TypespaceTrait| #[trigger] reached(m0, *settings, t2, x) && local_conflict(m0, *settings, t2, x) implies exists|i: int|
                0 <= i < conflicts@.len() && (#[trigger] conflicts@[i]).offender == t2 && conflicts@[i].required == x by {
                assert(done.contains((t2, x)));
            }
        }
        Err(Error::TraitConflicts { conflicts })
    }
}

} // verus!
