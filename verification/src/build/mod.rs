//! Construction-side vocabulary for assembling a typespace.
//!
//! [`Type`] is the sum of every kind of type a typespace can hold; the
//! shape types ([`structs::Struct`], [`enums::Enum`], and friends)
//! describe named types in detail. Types refer to one another by ID,
//! never by containment.

pub mod alias;
pub mod common;
pub mod context;
pub mod enums;
pub mod native;
pub mod structs;

use vstd::prelude::*;

use crate::build::alias::TypeAlias;
use crate::build::common::{ident_problem, TypeCommon, TypeCommonBuilt};
use crate::build::enums::{variant_problem, Enum, EnumVariant, VariantDetails};
use crate::build::native::Native;
use crate::build::structs::{property_problem, NewtypeStruct, Struct, StructProperty, StructPropertyState, TupleStruct, UnitStruct};
use crate::error::{Error, Relation};
use crate::json::JsonValue;
use crate::traits::TypespaceTraitSet;

verus! {

/// A type in a typespace.
///
/// A type refers to other types by ID; every ID used here must have its
/// own entry in the builder. Named types (see [`Type::is_named`]) render as
/// items; the remaining variants are built-in and container types that
/// appear where other types reference them.
#[derive(Debug, Clone)]
#[non_exhaustive]
pub enum Type {
    Enum(Enum),
    Struct(Struct),
    UnitStruct(UnitStruct),
    TupleStruct(TupleStruct),
    NewtypeStruct(NewtypeStruct),
    TypeAlias(TypeAlias),
    Native(Native),
    Option(u64),
    Box(u64),
    Vec(u64),
    MapOf(u64, u64),
    SetOf(u64),
    Array(u64, usize),
    Tuple(Vec<u64>),
    Unit,
    Boolean,
    Integer(String),
    Float(String),
    String,
    JsonValue,
    Never,
}

/// The type IDs a property list refers to, in order.
pub open spec fn property_ids(props: Seq<StructProperty>) -> Seq<u64> {
    props.map_values(|p: StructProperty| p.type_id)
}

/// The type IDs one variant refers to, in order.
pub open spec fn variant_ids(v: EnumVariant) -> Seq<u64> {
    match v.details {
        VariantDetails::Unit => Seq::empty(),
        VariantDetails::Item(id) => seq![id],
        VariantDetails::Tuple(ids) => ids@,
        VariantDetails::Struct(props) => property_ids(props@),
    }
}

/// The type IDs a list of variants refers to, variant by variant.
pub open spec fn variants_ids(vs: Seq<EnumVariant>) -> Seq<u64>
    decreases vs.len(),
{
    if vs.len() == 0 {
        Seq::empty()
    } else {
        variants_ids(vs.drop_last()) + variant_ids(vs.last())
    }
}

/// The positional fields of a tuple struct followed by its rest type.
pub open spec fn tuple_struct_ids(t: TupleStruct) -> Seq<u64> {
    match t.rest {
        Some(rest) => t.fields@.push(rest),
        None => t.fields@,
    }
}

/// Two property lists agree in everything but the types they refer to.
pub open spec fn properties_agree(a: Seq<StructProperty>, b: Seq<StructProperty>) -> bool {
    &&& a.len() == b.len()
    &&& forall|i: int| 0 <= i < a.len() ==> {
        &&& (#[trigger] a[i]).rust_name == b[i].rust_name
        &&& a[i].json_name == b[i].json_name
        &&& a[i].state == b[i].state
        &&& a[i].description == b[i].description
    }
}

/// Two variants agree in everything but the types they refer to.
pub open spec fn variant_agrees(a: EnumVariant, b: EnumVariant) -> bool {
    &&& a.rust_name == b.rust_name
    &&& a.rename == b.rename
    &&& a.description == b.description
    &&& match (a.details, b.details) {
        (VariantDetails::Unit, VariantDetails::Unit) => true,
        (VariantDetails::Item(_), VariantDetails::Item(_)) => true,
        (VariantDetails::Tuple(x), VariantDetails::Tuple(y)) => x@.len() == y@.len(),
        (VariantDetails::Struct(x), VariantDetails::Struct(y)) => properties_agree(x@, y@),
        _ => false,
    }
}

impl Type {
    /// Whether this is a named type: one that renders as its own item.
    pub open spec fn spec_is_named(self) -> bool {
        self is Enum || self is Struct || self is UnitStruct || self is TupleStruct
            || self is NewtypeStruct || self is TypeAlias
    }

    /// The metadata of a named type.
    pub open spec fn common_of(self) -> Option<TypeCommon> {
        match self {
            Type::Enum(e) => Some(e.common),
            Type::Struct(s) => Some(s.common),
            Type::UnitStruct(u) => Some(u.common),
            Type::TupleStruct(t) => Some(t.common),
            Type::NewtypeStruct(n) => Some(n.common),
            Type::TypeAlias(a) => Some(a.common),
            _ => None,
        }
    }

    /// The traits finalization computed for a named type, if any.
    pub open spec fn built_of(self) -> Option<TypespaceTraitSet> {
        match self.common_of() {
            Some(c) => match c.built {
                Some(b) => Some(b.traits),
                None => None,
            },
            None => None,
        }
    }

    /// Every type this type refers to directly, in order.
    pub open spec fn spec_children(self) -> Seq<u64> {
        match self {
            Type::Enum(e) => variants_ids(e.variants@),
            Type::Struct(s) => property_ids(s.properties@),
            Type::TupleStruct(t) => tuple_struct_ids(t),
            Type::NewtypeStruct(n) => seq![n.inner],
            Type::TypeAlias(a) => seq![a.target],
            Type::Native(n) => n.parameters@,
            Type::Option(id) => seq![id],
            Type::Box(id) => seq![id],
            Type::Vec(id) => seq![id],
            Type::SetOf(id) => seq![id],
            Type::Array(id, _) => seq![id],
            Type::MapOf(k, v) => seq![k, v],
            Type::Tuple(items) => items@,
            _ => Seq::empty(),
        }
    }

    /// Whether the children of this type contribute to its size: true of
    /// every kind but the heap-indirect containers (box, vec, map, set),
    /// natives, and the leaves.
    pub open spec fn holds_inline(self) -> bool {
        self is Enum || self is Struct || self is TupleStruct || self is NewtypeStruct
            || self is TypeAlias || self is Option || self is Array || self is Tuple
    }

    /// The children that contribute to this type's size.
    pub open spec fn spec_contained(self) -> Seq<u64> {
        if self.holds_inline() {
            self.spec_children()
        } else {
            Seq::empty()
        }
    }

    /// `self` and `other` are the same type but for the IDs they refer
    /// to.
    pub open spec fn agrees_except_ids(self, other: Type) -> bool {
        match (self, other) {
            (Type::Enum(a), Type::Enum(b)) => {
                &&& a.common == b.common
                &&& a.tag_type == b.tag_type
                &&& a.deny_unknown_fields == b.deny_unknown_fields
                &&& a.variants@.len() == b.variants@.len()
                &&& forall|i: int| 0 <= i < a.variants@.len() ==> variant_agrees(#[trigger] a.variants@[i], b.variants@[i])
            },
            (Type::Struct(a), Type::Struct(b)) => {
                &&& a.common == b.common
                &&& a.deny_unknown_fields == b.deny_unknown_fields
                &&& properties_agree(a.properties@, b.properties@)
            },
            (Type::TupleStruct(a), Type::TupleStruct(b)) => {
                &&& a.common == b.common
                &&& a.fields@.len() == b.fields@.len()
                &&& (a.rest is Some <==> b.rest is Some)
            },
            (Type::NewtypeStruct(a), Type::NewtypeStruct(b)) => a.common == b.common && a.constraints
                == b.constraints,
            (Type::TypeAlias(a), Type::TypeAlias(b)) => a.common == b.common,
            (Type::Option(_), Type::Option(_)) => true,
            (Type::Array(_, m), Type::Array(_, n)) => m == n,
            (Type::Tuple(x), Type::Tuple(y)) => x@.len() == y@.len(),
            _ => self == other,
        }
    }
}

impl Type {
    /// The type with nothing computed by finalization recorded.
    pub open spec fn without_built(self) -> Type {
        match self {
            Type::Enum(e) => Type::Enum(Enum { common: TypeCommon { built: None, ..e.common }, ..e }),
            Type::Struct(x) => Type::Struct(Struct { common: TypeCommon { built: None, ..x.common }, ..x }),
            Type::UnitStruct(x) => Type::UnitStruct(UnitStruct { common: TypeCommon { built: None, ..x.common }, ..x }),
            Type::TupleStruct(x) => Type::TupleStruct(TupleStruct { common: TypeCommon { built: None, ..x.common }, ..x }),
            Type::NewtypeStruct(x) => Type::NewtypeStruct(NewtypeStruct { common: TypeCommon { built: None, ..x.common }, ..x }),
            Type::TypeAlias(x) => Type::TypeAlias(TypeAlias { common: TypeCommon { built: None, ..x.common }, ..x }),
            _ => self,
        }
    }

    /// `self` and `other` differ at most in what finalization recorded.
    pub open spec fn agrees_except_built(self, other: Type) -> bool {
        self.without_built() == other.without_built()
    }

    /// The type with nothing computed by finalization: neither trait sets
    /// nor an enum's refusal of `FromStr`.
    pub open spec fn without_computed(self) -> Type {
        match self.without_built() {
            Type::Enum(e) => Type::Enum(Enum { from_str_refusal: None, ..e }),
            t => t,
        }
    }

    /// `self` and `other` differ at most in what finalization computed.
    pub open spec fn agrees_except_computed(self, other: Type) -> bool {
        self.without_computed() == other.without_computed()
    }

    /// The checks `build()` applies hold: a named type has a valid name
    /// (and, for structs and enums, valid and unique member names, and
    /// for enums a tag type); a native's obligations match its
    /// parameters.
    pub open spec fn spec_valid(self) -> bool {
        match self {
            Type::Enum(e) => e.common.name is Some && ident_problem(e.common.name->0@) is None
                && e.tag_type is Some && forall|i: int| 0 <= i < e.variants@.len()
                ==> #[trigger] variant_problem(e.common.name->0@, e.variants@, i) is None,
            Type::Struct(x) => x.common.name is Some && ident_problem(x.common.name->0@) is None
                && (forall|i: int| 0 <= i < x.properties@.len()
                ==> #[trigger] property_problem(x.properties@, i) is None)
                && !(x.deny_unknown_fields && crate::build::structs::first_flattened(x.properties@, 0) is Some),
            Type::UnitStruct(x) => x.common.name is Some && ident_problem(x.common.name->0@) is None,
            Type::TupleStruct(x) => x.common.name is Some && ident_problem(x.common.name->0@) is None
                && x.fields@.len() > 0,
            Type::NewtypeStruct(x) => x.common.name is Some && ident_problem(x.common.name->0@) is None
                && crate::build::structs::vacuous_kind(x.constraints) is None,
            Type::TypeAlias(x) => x.common.name is Some && ident_problem(x.common.name->0@) is None,
            Type::Native(n) => n.well_formed(),
            _ => true,
        }
    }
}

/// `r` replaces `from` by `to` and leaves every other ID alone.
pub open spec fn replace_id(from: u64, to: u64, id: u64) -> u64 {
    if id == from {
        to
    } else {
        id
    }
}

/// A child reached along `relation` through property `p`.
pub open spec fn prop_child(relation: Relation, p: StructProperty) -> ContainedChild {
    ContainedChild { relation, id: p.type_id, optional: p.state is Optional }
}

/// A required child reached along `relation`.
pub open spec fn plain_child(relation: Relation, id: u64) -> ContainedChild {
    ContainedChild { relation, id, optional: false }
}

/// The children of variant `v`, each reached through the variant.
pub open spec fn variant_children(v: EnumVariant) -> Seq<ContainedChild> {
    match v.details {
        VariantDetails::Unit => Seq::empty(),
        VariantDetails::Item(id) => seq![plain_child(Relation::Variant(v.rust_name), id)],
        VariantDetails::Tuple(ids) => ids@.map_values(|id: u64| plain_child(Relation::Variant(v.rust_name), id)),
        VariantDetails::Struct(props) => props@.map_values(|p: StructProperty| prop_child(Relation::Variant(v.rust_name), p)),
    }
}

/// The children of a list of variants, variant by variant.
pub open spec fn variants_related(vs: Seq<EnumVariant>) -> Seq<ContainedChild>
    decreases vs.len(),
{
    if vs.len() == 0 {
        Seq::empty()
    } else {
        variants_related(vs.drop_last()) + variant_children(vs.last())
    }
}

/// The contained children of `ty`, each labeled with the relation a
/// requirement takes to reach it: a property by its field, everything a
/// variant holds by the variant, a newtype's inner type, an alias's
/// target, and every other contained child as an element.
pub open spec fn spec_contained_related(ty: Type) -> Seq<ContainedChild> {
    match ty {
        Type::Enum(e) => variants_related(e.variants@),
        Type::Struct(x) => x.properties@.map_values(|p: StructProperty| prop_child(Relation::Field(p.rust_name), p)),
        Type::TupleStruct(t) => tuple_struct_ids(t).map_values(|id: u64| plain_child(Relation::Element, id)),
        Type::NewtypeStruct(n) => seq![plain_child(Relation::Inner, n.inner)],
        Type::TypeAlias(a) => seq![plain_child(Relation::Target, a.target)],
        Type::Option(id) => seq![plain_child(Relation::Element, id)],
        Type::Array(id, _) => seq![plain_child(Relation::Element, id)],
        Type::Tuple(items) => items@.map_values(|id: u64| plain_child(Relation::Element, id)),
        _ => Seq::empty(),
    }
}

proof fn lemma_variants_children_ids(vs: Seq<EnumVariant>)
    ensures
        child_ids(variants_related(vs)) == variants_ids(vs),
    decreases vs.len(),
{
    if vs.len() > 0 {
        lemma_variants_children_ids(vs.drop_last());
        let v = vs.last();
        assert(child_ids(variant_children(v)) =~= variant_ids(v));
        assert(child_ids(variants_related(vs)) =~= child_ids(variants_related(vs.drop_last())) + child_ids(variant_children(v)));
    }
}

/// Labeling the contained children keeps their IDs.
pub proof fn lemma_contained_related_ids(ty: Type)
    ensures
        child_ids(spec_contained_related(ty)) == ty.spec_contained(),
{
    match ty {
        Type::Enum(e) => {
            lemma_variants_children_ids(e.variants@);
        },
        _ => {
            assert(child_ids(spec_contained_related(ty)) =~= ty.spec_contained());
        },
    }
}

/// Push, along `relation`, a child for each of `ids`.
fn push_plain(out: &mut Vec<ContainedChild>, rust_name: &String, variant: bool, ids: &Vec<u64>)
    ensures
        final(out)@ == old(out)@ + ids@.map_values(
            |id: u64| plain_child(if variant { Relation::Variant(*rust_name) } else { Relation::Element }, id),
        ),
{
    let mut i: usize = 0;
    while i < ids.len()
        invariant
            i <= ids@.len(),
            out@ == old(out)@ + ids@.take(i as int).map_values(
                |id: u64| plain_child(if variant { Relation::Variant(*rust_name) } else { Relation::Element }, id),
            ),
        decreases ids@.len() - i,
    {
        let relation = if variant {
            Relation::Variant(rust_name.clone())
        } else {
            Relation::Element
        };
        out.push(ContainedChild::required(relation, ids[i]));
        proof {
            assert(ids@.take(i + 1).map_values(
                |id: u64| plain_child(if variant { Relation::Variant(*rust_name) } else { Relation::Element }, id),
            ) =~= ids@.take(i as int).map_values(
                |id: u64| plain_child(if variant { Relation::Variant(*rust_name) } else { Relation::Element }, id),
            ).push(plain_child(if variant { Relation::Variant(*rust_name) } else { Relation::Element }, ids@[i as int])));
        }
        i = i + 1;
    }
    proof {
        assert(ids@.take(ids@.len() as int) == ids@);
    }
}

/// Push a child for each of `props`, each along its field, or along the
/// variant `rust_name` when `variant` holds.
fn push_props(out: &mut Vec<ContainedChild>, rust_name: &String, variant: bool, props: &Vec<StructProperty>)
    ensures
        final(out)@ == old(out)@ + props@.map_values(
            |p: StructProperty| prop_child(if variant { Relation::Variant(*rust_name) } else { Relation::Field(p.rust_name) }, p),
        ),
{
    let mut i: usize = 0;
    while i < props.len()
        invariant
            i <= props@.len(),
            out@ == old(out)@ + props@.take(i as int).map_values(
                |p: StructProperty| prop_child(if variant { Relation::Variant(*rust_name) } else { Relation::Field(p.rust_name) }, p),
            ),
        decreases props@.len() - i,
    {
        let relation = if variant {
            Relation::Variant(rust_name.clone())
        } else {
            Relation::Field(props[i].rust_name.clone())
        };
        let child = match props[i].state {
            StructPropertyState::Optional => ContainedChild::optional(relation, props[i].type_id),
            _ => ContainedChild::required(relation, props[i].type_id),
        };
        out.push(child);
        proof {
            assert(props@.take(i + 1).map_values(
                |p: StructProperty| prop_child(if variant { Relation::Variant(*rust_name) } else { Relation::Field(p.rust_name) }, p),
            ) =~= props@.take(i as int).map_values(
                |p: StructProperty| prop_child(if variant { Relation::Variant(*rust_name) } else { Relation::Field(p.rust_name) }, p),
            ).push(prop_child(if variant { Relation::Variant(*rust_name) } else { Relation::Field(props@[i as int].rust_name) }, props@[i as int])));
        }
        i = i + 1;
    }
    proof {
        assert(props@.take(props@.len() as int) == props@);
    }
}

/// A contained child of a type: the relation reaching it, its ID, and
/// whether the edge is a struct-style property in the optional state.
pub struct ContainedChild {
    pub relation: Relation,
    pub id: u64,
    pub optional: bool,
}

impl ContainedChild {
    /// A required edge: not an optional struct-style property.
    pub fn required(relation: Relation, id: u64) -> (c: Self)
        ensures
            c.id == id,
            !c.optional,
            c.relation == relation,
    {
        ContainedChild { relation, id, optional: false }
    }

    /// An optional struct-style property.
    pub fn optional(relation: Relation, id: u64) -> (c: Self)
        ensures
            c.id == id,
            c.optional,
            c.relation == relation,
    {
        ContainedChild { relation, id, optional: true }
    }
}

/// The IDs of a list of contained children.
pub open spec fn child_ids(cs: Seq<ContainedChild>) -> Seq<u64> {
    cs.map_values(|c: ContainedChild| c.id)
}

proof fn lemma_variants_ids_push(vs: Seq<EnumVariant>, i: int)
    requires
        0 <= i < vs.len(),
    ensures
        variants_ids(vs.take(i + 1)) == variants_ids(vs.take(i)) + variant_ids(vs[i]),
{
    assert(vs.take(i + 1).drop_last() == vs.take(i));
    assert(vs.take(i + 1).last() == vs[i]);
}

fn push_all(out: &mut Vec<u64>, ids: &Vec<u64>)
    ensures
        final(out)@ == old(out)@ + ids@,
{
    let mut i: usize = 0;
    while i < ids.len()
        invariant
            i <= ids@.len(),
            out@ == old(out)@ + ids@.take(i as int),
        decreases ids@.len() - i,
    {
        out.push(ids[i]);
        proof {
            assert(ids@.take(i + 1) == ids@.take(i as int).push(ids@[i as int]));
        }
        i = i + 1;
    }
    proof {
        assert(ids@.take(ids@.len() as int) == ids@);
    }
}

fn push_property_ids(out: &mut Vec<u64>, props: &Vec<StructProperty>)
    ensures
        final(out)@ == old(out)@ + property_ids(props@),
{
    let mut i: usize = 0;
    while i < props.len()
        invariant
            i <= props@.len(),
            out@ == old(out)@ + property_ids(props@.take(i as int)),
        decreases props@.len() - i,
    {
        out.push(props[i].type_id);
        proof {
            assert(props@.take(i + 1) == props@.take(i as int).push(props@[i as int]));
            assert(property_ids(props@.take(i + 1)) == property_ids(props@.take(i as int)).push(
                props@[i as int].type_id,
            ));
        }
        i = i + 1;
    }
    proof {
        assert(props@.take(props@.len() as int) == props@);
    }
}

fn variants_children(variants: &Vec<EnumVariant>) -> (r: Vec<u64>)
    ensures
        r@ == variants_ids(variants@),
{
    let mut out: Vec<u64> = Vec::new();
    let mut i: usize = 0;
    while i < variants.len()
        invariant
            i <= variants@.len(),
            out@ == variants_ids(variants@.take(i as int)),
        decreases variants@.len() - i,
    {
        proof {
            lemma_variants_ids_push(variants@, i as int);
        }
        match &variants[i].details {
            VariantDetails::Unit => {},
            VariantDetails::Item(id) => {
                out.push(*id);
            },
            VariantDetails::Tuple(ids) => {
                push_all(&mut out, ids);
            },
            VariantDetails::Struct(props) => {
                push_property_ids(&mut out, props);
            },
        }
        proof {
            assert(variant_ids(variants@[i as int]) == match variants@[i as int].details {
                VariantDetails::Unit => Seq::<u64>::empty(),
                VariantDetails::Item(id) => seq![id],
                VariantDetails::Tuple(ids) => ids@,
                VariantDetails::Struct(props) => property_ids(props@),
            });
        }
        i = i + 1;
    }
    proof {
        assert(variants@.take(variants@.len() as int) == variants@);
    }
    out
}

fn replace_in_ids(ids: &mut Vec<u64>, from: u64, to: u64)
    ensures
        final(ids)@ == old(ids)@.map_values(|c: u64| replace_id(from, to, c)),
{
    let mut i: usize = 0;
    while i < ids.len()
        invariant
            i <= ids@.len(),
            ids@.len() == old(ids)@.len(),
            forall|k: int| 0 <= k < i ==> #[trigger] ids@[k] == replace_id(from, to, old(ids)@[k]),
            forall|k: int| i <= k < ids@.len() ==> #[trigger] ids@[k] == old(ids)@[k],
        decreases ids@.len() - i,
    {
        if ids[i] == from {
            ids.set(i, to);
        }
        i = i + 1;
    }
    proof {
        assert(ids@ =~= old(ids)@.map_values(|c: u64| replace_id(from, to, c)));
    }
}

fn replace_in_properties(props: &mut Vec<StructProperty>, from: u64, to: u64)
    ensures
        properties_agree(old(props)@, final(props)@),
        property_ids(final(props)@) == property_ids(old(props)@).map_values(|c: u64| replace_id(from, to, c)),
{
    let mut i: usize = 0;
    while i < props.len()
        invariant
            i <= props@.len(),
            props@.len() == old(props)@.len(),
            properties_agree(old(props)@, props@),
            forall|k: int| 0 <= k < i ==> (#[trigger] props@[k]).type_id == replace_id(from, to, old(props)@[k].type_id),
            forall|k: int| i <= k < props@.len() ==> (#[trigger] props@[k]).type_id == old(props)@[k].type_id,
        decreases props@.len() - i,
    {
        if props[i].type_id == from {
            props[i].type_id = to;
        }
        i = i + 1;
    }
    proof {
        assert(property_ids(props@) =~= property_ids(old(props)@).map_values(|c: u64| replace_id(from, to, c)));
    }
}

proof fn lemma_map_concat(a: Seq<u64>, b: Seq<u64>, from: u64, to: u64)
    ensures
        (a + b).map_values(|c: u64| replace_id(from, to, c)) == a.map_values(|c: u64| replace_id(from, to, c))
            + b.map_values(|c: u64| replace_id(from, to, c)),
{
    assert((a + b).map_values(|c: u64| replace_id(from, to, c)) =~= a.map_values(|c: u64| replace_id(from, to, c))
        + b.map_values(|c: u64| replace_id(from, to, c)));
}

fn replace_in_variants(variants: &mut Vec<EnumVariant>, from: u64, to: u64)
    ensures
        final(variants)@.len() == old(variants)@.len(),
        forall|i: int| 0 <= i < old(variants)@.len() ==> variant_agrees(#[trigger] old(variants)@[i], final(variants)@[i]),
        variants_ids(final(variants)@) == variants_ids(old(variants)@).map_values(|c: u64| replace_id(from, to, c)),
{
    let mut i: usize = 0;
    while i < variants.len()
        invariant
            i <= variants@.len(),
            variants@.len() == old(variants)@.len(),
            forall|k: int| 0 <= k < variants@.len() ==> variant_agrees(#[trigger] old(variants)@[k], variants@[k]),
            forall|k: int| i <= k < variants@.len() ==> #[trigger] variants@[k] == old(variants)@[k],
            variants_ids(variants@.take(i as int)) == variants_ids(old(variants)@.take(i as int)).map_values(
                |c: u64| replace_id(from, to, c),
            ),
        decreases variants@.len() - i,
    {
        let ghost before = variants@;
        match &mut variants[i].details {
            VariantDetails::Unit => {},
            VariantDetails::Item(id) => {
                if *id == from {
                    *id = to;
                }
            },
            VariantDetails::Tuple(ids) => {
                replace_in_ids(ids, from, to);
            },
            VariantDetails::Struct(props) => {
                replace_in_properties(props, from, to);
            },
        }
        proof {
            assert(variants@.take(i as int) == before.take(i as int));
            assert(variant_ids(variants@[i as int]) == variant_ids(old(variants)@[i as int]).map_values(
                |c: u64| replace_id(from, to, c),
            ));
            lemma_variants_ids_push(variants@, i as int);
            lemma_variants_ids_push(old(variants)@, i as int);
            lemma_map_concat(variants_ids(old(variants)@.take(i as int)), variant_ids(old(variants)@[i as int]), from, to);
        }
        i = i + 1;
    }
    proof {
        assert(variants@.take(variants@.len() as int) == variants@);
        assert(old(variants)@.take(variants@.len() as int) == old(variants)@);
    }
}

impl Type {
    /// Whether this is a named type: a struct, enum, unit struct, tuple
    /// struct, newtype struct, or type alias.
    pub fn is_named(&self) -> (b: bool)
        ensures
            b == self.spec_is_named(),
    {
        match self {
            Type::Enum(_) | Type::Struct(_) | Type::UnitStruct(_) | Type::TupleStruct(_)
            | Type::NewtypeStruct(_) | Type::TypeAlias(_) => true,
            _ => false,
        }
    }

    /// The metadata common to named types; `None` for built-in and
    /// container types.
    pub fn common(&self) -> (r: Option<&TypeCommon>)
        ensures
            r is Some <==> self.common_of() is Some,
            r matches Some(c) ==> *c == self.common_of()->0,
    {
        match self {
            Type::Enum(e) => Some(&e.common),
            Type::Struct(s) => Some(&s.common),
            Type::UnitStruct(u) => Some(&u.common),
            Type::TupleStruct(t) => Some(&t.common),
            Type::NewtypeStruct(n) => Some(&n.common),
            Type::TypeAlias(a) => Some(&a.common),
            _ => None,
        }
    }

    /// The name of this type, if it has one.
    pub fn name(&self) -> (r: Option<&str>)
        ensures
            r is Some <==> (self.common_of() is Some && self.common_of()->0.name is Some),
            r matches Some(n) ==> n@ == self.common_of()->0.name->0@,
    {
        match self.common() {
            Some(c) => c.name(),
            None => None,
        }
    }

    /// The type's default value, if any; always `None` for built-in and
    /// container types.
    pub fn default(&self) -> (r: Option<&JsonValue>)
        ensures
            r is Some <==> (self.common_of() is Some && self.common_of()->0.default is Some),
            r matches Some(d) ==> *d == self.common_of()->0.default->0,
    {
        match self.common() {
            Some(c) => c.default(),
            None => None,
        }
    }

    /// The opaque derive paths carried by this type alone; empty for
    /// built-in and container types.
    pub fn extra_derives(&self) -> (r: &[String])
        ensures
            r@ == match self.common_of() {
                Some(c) => c.extra_derives@,
                None => Seq::<String>::empty(),
            },
    {
        match self.common() {
            Some(c) => c.extra_derives(),
            None => &[],
        }
    }

    /// The opaque attributes carried by this type alone; empty for
    /// built-in and container types.
    pub fn extra_attrs(&self) -> (r: &[String])
        ensures
            r@ == match self.common_of() {
                Some(c) => c.extra_attrs@,
                None => Seq::<String>::empty(),
            },
    {
        match self.common() {
            Some(c) => c.extra_attrs(),
            None => &[],
        }
    }

    /// Set or clear the type's default value; no effect on built-in and
    /// container types.
    pub fn set_default(&mut self, default: Option<JsonValue>)
        ensures
            match old(self).common_of() {
                Some(c) => final(self).common_of() == Some(TypeCommon { default, ..c }),
                None => *final(self) == *old(self),
            },
            final(self).spec_children() == old(self).spec_children(),
            final(self).spec_is_named() == old(self).spec_is_named(),
    {
        match self {
            Type::Enum(e) => e.common.default = default,
            Type::Struct(s) => s.common.default = default,
            Type::UnitStruct(u) => u.common.default = default,
            Type::TupleStruct(t) => t.common.default = default,
            Type::NewtypeStruct(n) => n.common.default = default,
            Type::TypeAlias(a) => a.common.default = default,
            _ => {},
        }
    }

    /// Record the traits finalization computed; no effect on built-in and
    /// container types.
    pub fn set_built(&mut self, traits: TypespaceTraitSet)
        ensures
            match old(self).common_of() {
                Some(c) => final(self).common_of() == Some(
                    TypeCommon { built: Some(TypeCommonBuilt { traits }), ..c },
                ),
                None => *final(self) == *old(self),
            },
            final(self).spec_is_named() == old(self).spec_is_named(),
            final(self).spec_children() == old(self).spec_children(),
            final(self).agrees_except_built(*old(self)),
    {
        let built = Some(TypeCommonBuilt { traits });
        match self {
            Type::Enum(e) => e.common.built = built,
            Type::Struct(s) => s.common.built = built,
            Type::UnitStruct(u) => u.common.built = built,
            Type::TupleStruct(t) => t.common.built = built,
            Type::NewtypeStruct(n) => n.common.built = built,
            Type::TypeAlias(a) => a.common.built = built,
            _ => {},
        }
    }

    /// The traits finalization recorded, if this is a named type that has
    /// them.
    pub fn built_traits(&self) -> (r: Option<TypespaceTraitSet>)
        ensures
            r == self.built_of(),
    {
        match self.common() {
            Some(c) => match &c.built {
                Some(b) => Some(b.traits),
                None => None,
            },
            None => None,
        }
    }

    /// The IDs of every type this type refers to directly. Each must name
    /// a type inserted into the builder for finalization to succeed.
    pub fn children(&self) -> (r: Vec<u64>)
        ensures
            r@ == self.spec_children(),
    {
        match self {
            Type::Enum(e) => variants_children(&e.variants),
            Type::Struct(s) => {
                let mut out: Vec<u64> = Vec::new();
                push_property_ids(&mut out, &s.properties);
                proof {
                    assert(out@ == property_ids(s.properties@));
                }
                out
            },
            Type::TupleStruct(t) => {
                let mut out: Vec<u64> = Vec::new();
                push_all(&mut out, &t.fields);
                if let Some(rest) = t.rest {
                    out.push(rest);
                }
                proof {
                    assert(out@ == tuple_struct_ids(*t));
                }
                out
            },
            Type::NewtypeStruct(n) => vec![n.inner],
            Type::TypeAlias(a) => vec![a.target],
            Type::Native(n) => {
                let mut out: Vec<u64> = Vec::new();
                push_all(&mut out, &n.parameters);
                proof {
                    assert(out@ == n.parameters@);
                }
                out
            },
            Type::Option(id) => vec![*id],
            Type::Box(id) => vec![*id],
            Type::Vec(id) => vec![*id],
            Type::SetOf(id) => vec![*id],
            Type::Array(id, _) => vec![*id],
            Type::MapOf(k, v) => vec![*k, *v],
            Type::Tuple(items) => {
                let mut out: Vec<u64> = Vec::new();
                push_all(&mut out, items);
                proof {
                    assert(out@ == items@);
                }
                out
            },
            _ => Vec::new(),
        }
    }

    /// The IDs of the children that contribute to this type's size.
    pub fn contained_children(&self) -> (r: Vec<u64>)
        ensures
            r@ == self.spec_contained(),
    {
        match self {
            Type::Enum(_) | Type::Struct(_) | Type::TupleStruct(_) | Type::NewtypeStruct(_)
            | Type::TypeAlias(_) | Type::Option(_) | Type::Array(_, _) | Type::Tuple(_) => self.children(),
            _ => Vec::new(),
        }
    }

    /// The contained children, in the order [`Type::contained_children`]
    /// gives them, each labeled with the relation a requirement takes to
    /// reach it.
    pub fn contained_children_related(&self) -> (r: Vec<ContainedChild>)
        ensures
            r@ == spec_contained_related(*self),
            child_ids(r@) == self.spec_contained(),
    {
        proof {
            lemma_contained_related_ids(*self);
        }
        let mut out: Vec<ContainedChild> = Vec::new();
        match self {
            Type::Enum(e) => {
                let mut i: usize = 0;
                while i < e.variants.len()
                    invariant
                        i <= e.variants@.len(),
                        out@ == variants_related(e.variants@.take(i as int)),
                    decreases e.variants@.len() - i,
                {
                    let v = &e.variants[i];
                    proof {
                        assert(e.variants@.take(i + 1).drop_last() == e.variants@.take(i as int));
                        assert(e.variants@.take(i + 1).last() == e.variants@[i as int]);
                    }
                    match &v.details {
                        VariantDetails::Unit => {
                            proof {
                                assert(out@ + variant_children(*v) =~= out@);
                            }
                        },
                        VariantDetails::Item(id) => {
                            out.push(ContainedChild::required(Relation::Variant(v.rust_name.clone()), *id));
                        },
                        VariantDetails::Tuple(ids) => {
                            push_plain(&mut out, &v.rust_name, true, ids);
                            proof {
                                assert(ids@.map_values(|id: u64| plain_child(if true { Relation::Variant(v.rust_name) } else { Relation::Element }, id))
                                    =~= ids@.map_values(|id: u64| plain_child(Relation::Variant(v.rust_name), id)));
                            }
                        },
                        VariantDetails::Struct(props) => {
                            push_props(&mut out, &v.rust_name, true, props);
                            proof {
                                assert(props@.map_values(|p: StructProperty| prop_child(if true { Relation::Variant(v.rust_name) } else { Relation::Field(p.rust_name) }, p))
                                    =~= props@.map_values(|p: StructProperty| prop_child(Relation::Variant(v.rust_name), p)));
                            }
                        },
                    }
                    i = i + 1;
                }
                proof {
                    assert(e.variants@.take(e.variants@.len() as int) == e.variants@);
                }
            },
            Type::Struct(x) => {
                let empty = String::new();
                push_props(&mut out, &empty, false, &x.properties);
                proof {
                    assert(out@ =~= x.properties@.map_values(|p: StructProperty| prop_child(Relation::Field(p.rust_name), p)));
                }
            },
            Type::TupleStruct(t) => {
                let empty = String::new();
                let ids = self.children();
                push_plain(&mut out, &empty, false, &ids);
                proof {
                    assert(out@ =~= tuple_struct_ids(*t).map_values(|id: u64| plain_child(Relation::Element, id)));
                }
            },
            Type::NewtypeStruct(n) => {
                out.push(ContainedChild::required(Relation::Inner, n.inner));
            },
            Type::TypeAlias(a) => {
                out.push(ContainedChild::required(Relation::Target, a.target));
            },
            Type::Option(id) => {
                out.push(ContainedChild::required(Relation::Element, *id));
            },
            Type::Array(id, _) => {
                out.push(ContainedChild::required(Relation::Element, *id));
            },
            Type::Tuple(items) => {
                let empty = String::new();
                push_plain(&mut out, &empty, false, items);
                proof {
                    assert(out@ =~= items@.map_values(|id: u64| plain_child(Relation::Element, id)));
                }
            },
            _ => {},
        }
        proof {
            assert(out@ =~= spec_contained_related(*self));
        }
        out
    }

    /// Replace every contained child `from` by `to`, leaving everything
    /// else as it is.
    pub fn replace_contained(&mut self, from: u64, to: u64)
        ensures
            final(self).agrees_except_ids(*old(self)),
            final(self).holds_inline() == old(self).holds_inline(),
            final(self).spec_is_named() == old(self).spec_is_named(),
            final(self).common_of() == old(self).common_of(),
            final(self).spec_contained() == old(self).spec_contained().map_values(|c: u64| replace_id(from, to, c)),
            !old(self).holds_inline() ==> *final(self) == *old(self),
    {
        match self {
            Type::Enum(e) => {
                replace_in_variants(&mut e.variants, from, to);
            },
            Type::Struct(s) => {
                replace_in_properties(&mut s.properties, from, to);
            },
            Type::TupleStruct(t) => {
                let ghost old_fields = t.fields@;
                replace_in_ids(&mut t.fields, from, to);
                if let Some(rest) = t.rest {
                    if rest == from {
                        t.rest = Some(to);
                    }
                }
                proof {
                    if old_fields.len() >= 0 {
                        lemma_map_concat(old_fields, seq![old(self)->TupleStruct_0.rest->0], from, to);
                    }
                    assert(tuple_struct_ids(*t) =~= tuple_struct_ids(old(self)->TupleStruct_0).map_values(
                        |c: u64| replace_id(from, to, c),
                    ));
                }
            },
            Type::NewtypeStruct(n) => {
                if n.inner == from {
                    n.inner = to;
                }
                proof {
                    assert(seq![n.inner] =~= seq![old(self)->NewtypeStruct_0.inner].map_values(
                        |c: u64| replace_id(from, to, c),
                    ));
                }
            },
            Type::TypeAlias(a) => {
                if a.target == from {
                    a.target = to;
                }
                proof {
                    assert(seq![a.target] =~= seq![old(self)->TypeAlias_0.target].map_values(
                        |c: u64| replace_id(from, to, c),
                    ));
                }
            },
            Type::Option(id) => {
                if *id == from {
                    *id = to;
                }
                proof {
                    assert(seq![*id] =~= seq![old(self)->Option_0].map_values(|c: u64| replace_id(from, to, c)));
                }
            },
            Type::Array(id, _) => {
                if *id == from {
                    *id = to;
                }
                proof {
                    assert(seq![*id] =~= seq![old(self)->Array_0].map_values(|c: u64| replace_id(from, to, c)));
                }
            },
            Type::Tuple(items) => {
                replace_in_ids(items, from, to);
            },
            _ => {
                proof {
                    assert(Seq::<u64>::empty() =~= Seq::<u64>::empty().map_values(|c: u64| replace_id(from, to, c)));
                }
            },
        }
    }

    /// `r` is what the shape checks of `build()` answer for this type:
    /// each shape's own verdict, and `Ok` for a built-in or container type.
    pub open spec fn validated(self, r: Result<(), Error>) -> bool {
        match self {
            Type::Enum(e) => e.checked(r),
            Type::Struct(s) => s.checked(r),
            Type::UnitStruct(u) => u.checked(r),
            Type::TupleStruct(t) => t.checked(r),
            Type::NewtypeStruct(n) => n.checked(r),
            Type::TypeAlias(a) => a.checked(r),
            Type::Native(n) => (r is Ok <==> n.well_formed()) && (r matches Err(e) ==> e matches Error::NativeParameterCount {
                path: p,
                declared: d,
                parameters: q,
            } && p@ == n.path_of() && d == n.obligations_of().len() && q == n.parameters@.len()),
            _ => r is Ok,
        }
    }

    /// Re-run the shape checks that `build()` applies, so that no
    /// unvalidated shape can enter a typespace.
    pub fn validate_built(&self) -> (r: Result<(), Error>)
        ensures
            r is Ok <==> self.spec_valid(),
            self.validated(r),
    {
        match self {
            Type::Enum(e) => e.validate(),
            Type::Struct(s) => s.validate(),
            Type::UnitStruct(u) => u.validate(),
            Type::TupleStruct(t) => t.validate(),
            Type::NewtypeStruct(n) => n.validate(),
            Type::TypeAlias(a) => a.validate(),
            Type::Native(n) => n.validate(),
            _ => Ok(()),
        }
    }
}

} // verus!
