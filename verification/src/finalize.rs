//! Building a typespace: insert types under consumer-chosen IDs, then
//! finalize the graph into a [`Typespace`].
//!
//! Finalization validates the graph (derives parse, containers declare
//! their parameters, every referenced ID exists, names are unique, no
//! value position holds `Never`), breaks containment cycles with boxes,
//! rejects cycles through anonymous types, and resolves each named type's
//! traits.

use std::collections::BTreeMap;

use vstd::prelude::*;

use crate::build::Type;
use crate::build::enums::{EnumVariant, VariantDetails};
use crate::build::structs::{StructProperty, StructPropertyState};
use crate::defaults::{check_default, default_fits, default_settles};
use crate::error::Error;
use crate::traits::TypespaceTraitSet;
use crate::json::{json_of, JsonValue};
use crate::graph::{closed, lemma_u64_key_order, sorted_keys};
use crate::settings::{ContainerType, OptionalNullable, Settings};
use crate::traits::{lemma_trait_index, trait_at, trait_index, TraitProvision, TypespaceTrait};
use crate::syntax::{path_parse_error, spec_path_parse_error};
use crate::cycles::{box_ids_callable, box_ids_fresh, break_cycles, check_anonymous_cycles, cycles_broken};
use crate::desired::desired_resolved;
use crate::graph::{anon_acyclic, anon_edge, anon_path};
use crate::render::{alias_item_text, lemma_nameable, names_present, nameable, parameter_ident_text, scope_view, parameter_text, type_ident, type_ident_text};
use crate::resolve::{build_commons, commons_started, lemma_same_shape, resolve_traits};
use crate::trait_resolution::{
    builts_empty, conflicts_exact, containers_ok, natives_ok, required_resolved, requirements_met,
};

verus! {

broadcast use vstd::std_specs::btree::group_btree_axioms;

/// The name of named type `ty`.
pub open spec fn type_name_of(ty: Type) -> Seq<char> {
    ty.common_of()->0.name->0@
}

/// No two named types of `m` with IDs below `bound` share a name.
pub open spec fn names_distinct_below(m: Map<u64, Type>, bound: int) -> bool {
    forall|a: u64, b: u64|
        #![trigger type_name_of(m[a]), type_name_of(m[b])]
        m.contains_key(a) && m.contains_key(b) && a < bound && b < bound && a != b && m[a].spec_is_named()
            && m[b].spec_is_named() ==> type_name_of(m[a]) != type_name_of(m[b])
}

/// No two named types of `m` share a name.
pub open spec fn names_distinct(m: Map<u64, Type>) -> bool {
    forall|a: u64, b: u64|
        #![trigger type_name_of(m[a]), type_name_of(m[b])]
        m.contains_key(a) && m.contains_key(b) && a != b && m[a].spec_is_named() && m[b].spec_is_named() ==> type_name_of(m[a])
            != type_name_of(m[b])
}

/// Every extra derive of `s` parses as a path.
pub open spec fn derives_ok(s: Settings) -> bool {
    forall|i: int| 0 <= i < s.extra_derives@.len() ==> spec_path_parse_error(#[trigger] s.extra_derives@[i]@) is None
}

/// `e` reports the first extra derive of `s` that does not parse.
pub open spec fn derive_error(s: Settings, e: Error) -> bool {
    exists|i: int|
        0 <= i < s.extra_derives@.len() && (forall|j: int| 0 <= j < i ==> spec_path_parse_error(#[trigger] s.extra_derives@[j]@) is None)
            && #[trigger] spec_path_parse_error(s.extra_derives@[i]@) is Some && (e matches Error::InvalidDerive { derive, message }
            && derive@ == s.extra_derives@[i]@ && spec_path_parse_error(s.extra_derives@[i]@) == Some(message@))
}

/// `e` reports the first configured container, in the order map, set,
/// vec, whose obligations do not cover the parameters it is rendered with.
pub open spec fn container_error(s: Settings, e: Error) -> bool {
    e matches Error::ContainerParameterCount { position, path, declared, parameters } && if s.map_type.obligations_of().len()
        != 2 {
        position@ == "map"@ && path@ == s.map_type.path_of() && declared == s.map_type.obligations_of().len() && parameters == 2
    } else if s.set_type.obligations_of().len() != 1 {
        position@ == "set"@ && path@ == s.set_type.path_of() && declared == s.set_type.obligations_of().len() && parameters == 1
    } else {
        position@ == "vec"@ && path@ == s.vec_type.path_of() && declared == s.vec_type.obligations_of().len() && parameters == 1
    }
}

/// The first trait, in declaration order from position `i` on, for which
/// container `c` answers `Unknown`.
pub open spec fn unknown_from(c: ContainerType, i: int) -> Option<TypespaceTrait>
    decreases 13 - i,
{
    if i < 0 || i >= 13 {
        None
    } else if c.provision_of(trait_at(i)) == TraitProvision::Unknown {
        Some(trait_at(i))
    } else {
        unknown_from(c, i + 1)
    }
}

/// Container `c` answers every trait: `Unknown` is for native types,
/// which cannot always answer for the type they name.
pub open spec fn answers_all(c: ContainerType) -> bool {
    forall|t: TypespaceTrait| #[trigger] c.provision_of(t) != TraitProvision::Unknown
}

/// The first unanswered trait, when there is one, is the first in
/// declaration order that the container answers `Unknown` for.
pub proof fn lemma_unknown_from(c: ContainerType)
    ensures
        unknown_from(c, 0) is None <==> answers_all(c),
        unknown_from(c, 0) matches Some(t) ==> c.provision_of(t) == TraitProvision::Unknown && forall|j: int|
            0 <= j < trait_index(t) ==> c.provision_of(trait_at(j)) != TraitProvision::Unknown,
{
    lemma_unknown_from_at(c, 0);
    if unknown_from(c, 0) is None {
        assert forall|t: TypespaceTrait| #[trigger] c.provision_of(t) != TraitProvision::Unknown by {
            lemma_trait_index(t);
        }
    }
}

proof fn lemma_unknown_from_at(c: ContainerType, i: int)
    requires
        0 <= i <= 13,
    ensures
        unknown_from(c, i) is None ==> forall|j: int| i <= j < 13 ==> c.provision_of(#[trigger] trait_at(j)) != TraitProvision::Unknown,
        unknown_from(c, i) matches Some(t) ==> c.provision_of(t) == TraitProvision::Unknown && i <= trait_index(t) < 13
            && forall|j: int| i <= j < trait_index(t) ==> c.provision_of(#[trigger] trait_at(j)) != TraitProvision::Unknown,
    decreases 13 - i,
{
    if i < 13 {
        lemma_unknown_from_at(c, i + 1);
        crate::traits::lemma_trait_at(i);
    }
}

/// Every configured container answers every trait.
pub open spec fn containers_answer(s: Settings) -> bool {
    &&& answers_all(s.map_type)
    &&& answers_all(s.set_type)
    &&& answers_all(s.vec_type)
    &&& (s.optional_nullable matches OptionalNullable::CustomType(c) ==> answers_all(c))
}

/// `e` reports the first container that leaves a trait unanswered, and
/// the first such trait.
pub open spec fn unknown_error(s: Settings, e: Error) -> bool {
    e matches Error::ContainerProvisionUnknown { position, path, trait_ } && if !answers_all(s.map_type) {
        position@ == "map"@ && path@ == s.map_type.path_of() && unknown_from(s.map_type, 0) == Some(trait_)
    } else if !answers_all(s.set_type) {
        position@ == "set"@ && path@ == s.set_type.path_of() && unknown_from(s.set_type, 0) == Some(trait_)
    } else if !answers_all(s.vec_type) {
        position@ == "vec"@ && path@ == s.vec_type.path_of() && unknown_from(s.vec_type, 0) == Some(trait_)
    } else {
        s.optional_nullable matches OptionalNullable::CustomType(c) && position@ == "optional-nullable"@ && path@
            == c.path_of() && unknown_from(c, 0) == Some(trait_)
    }
}

/// A custom optional-nullable wrapper, if configured, has `Default`
/// whatever it wraps: trait resolution relies on it.
pub open spec fn wrapper_default_ok(s: Settings) -> bool {
    s.optional_nullable matches OptionalNullable::CustomType(c) ==> c.provision_of(TypespaceTrait::Default)
        == TraitProvision::Always
}

/// `e` reports what the custom optional-nullable wrapper declares for
/// `Default`.
pub open spec fn wrapper_error(s: Settings, e: Error) -> bool {
    s.optional_nullable matches OptionalNullable::CustomType(c) && e matches Error::OptionalNullableWrapperDefault {
        path,
        provision,
    } && path@ == c.path_of() && provision == c.provision_of(TypespaceTrait::Default)
}

/// The first trait container `c` answers `Unknown` for.
fn first_unknown(c: &ContainerType) -> (r: Option<TypespaceTrait>)
    ensures
        r == unknown_from(*c, 0),
{
    let provisions = c.provisions();
    let mut i: usize = 0;
    while i < 13
        invariant
            i <= 13,
            provisions@.len() == 13,
            forall|k: int| 0 <= k < 13 ==> #[trigger] provisions@[k] == (trait_at(k), c.provision_of(trait_at(k))),
            unknown_from(*c, 0) == unknown_from(*c, i as int),
        decreases 13 - i,
    {
        let (t, p) = provisions[i];
        match p {
            TraitProvision::Unknown => {
                return Some(t);
            },
            _ => {},
        }
        i = i + 1;
    }
    None
}

/// Type `t` of `m` refers to a child that `m` does not hold.
pub open spec fn dangles(m: Map<u64, Type>, t: u64) -> bool {
    exists|c: u64| #[trigger] m[t].spec_children().contains(c) && !m.contains_key(c)
}

/// `e` reports the first dangling reference of `m`: the least type ID
/// with a dangling child, and its first such child.
pub open spec fn reference_error(m: Map<u64, Type>, e: Error) -> bool {
    e matches Error::UnknownTypeId { type_id, child_id } && m.contains_key(type_id) && (forall|u: u64|
        #[trigger] m.contains_key(u) && u < type_id ==> !dangles(m, u)) && exists|i: int|
        0 <= i < m[type_id].spec_children().len() && #[trigger] m[type_id].spec_children()[i] == child_id && !m.contains_key(
            child_id,
        ) && forall|j: int| 0 <= j < i ==> m.contains_key(#[trigger] m[type_id].spec_children()[j])
}

/// `e` reports the first name collision of `m`: `second` is the least ID
/// whose name an earlier named type already has, and `first` is that type.
pub open spec fn name_error(m: Map<u64, Type>, e: Error) -> bool {
    e matches Error::DuplicateTypeName { name, first, second } && m.contains_key(first) && m.contains_key(second) && first
        < second && m[first].spec_is_named() && m[second].spec_is_named() && type_name_of(m[first]) == type_name_of(m[second])
        && name@ == type_name_of(m[second]) && names_distinct_below(m, second as int)
}

/// Every type of `m` passes the checks `build()` applies.
pub open spec fn all_valid(m: Map<u64, Type>) -> bool {
    forall|t: u64| #[trigger] m.contains_key(t) ==> m[t].spec_valid()
}

/// The index of the first of `ids` that `types` does not hold.
fn first_missing(types: &BTreeMap<u64, Type>, ids: &Vec<u64>) -> (r: Option<usize>)
    ensures
        r matches Some(j) ==> j < ids@.len() && !types@.contains_key(ids@[j as int]) && forall|k: int|
            0 <= k < j ==> types@.contains_key(#[trigger] ids@[k]),
        r is None ==> forall|k: int| 0 <= k < ids@.len() ==> types@.contains_key(#[trigger] ids@[k]),
{
    proof {
        lemma_u64_key_order();
    }
    let mut j: usize = 0;
    while j < ids.len()
        invariant
            j <= ids@.len(),
            forall|k: int| 0 <= k < j ==> types@.contains_key(#[trigger] ids@[k]),
        decreases ids@.len() - j,
    {
        if !types.contains_key(&ids[j]) {
            return Some(j);
        }
        j = j + 1;
    }
    None
}

/// The index of an entry of `seen` with the name `name`.
fn find_name(seen: &Vec<(String, u64)>, name: &String) -> (r: Option<usize>)
    ensures
        r matches Some(k) ==> k < seen@.len() && seen@[k as int].0@ == name@,
        r is None ==> forall|k: int| 0 <= k < seen@.len() ==> (#[trigger] seen@[k]).0@ != name@,
{
    let mut k: usize = 0;
    while k < seen.len()
        invariant
            k <= seen@.len(),
            forall|n: int| 0 <= n < k ==> (#[trigger] seen@[n]).0@ != name@,
        decreases seen@.len() - k,
    {
        if seen[k].0 == *name {
            return Some(k);
        }
        k = k + 1;
    }
    None
}


/// The decimal digit `d`.
pub open spec fn digit_char(d: nat) -> char {
    if d == 0 {
        '0'
    } else if d == 1 {
        '1'
    } else if d == 2 {
        '2'
    } else if d == 3 {
        '3'
    } else if d == 4 {
        '4'
    } else if d == 5 {
        '5'
    } else if d == 6 {
        '6'
    } else if d == 7 {
        '7'
    } else if d == 8 {
        '8'
    } else {
        '9'
    }
}

/// The decimal rendering of `n`.
pub open spec fn decimal(n: nat) -> Seq<char>
    decreases n,
{
    if n < 10 {
        seq![digit_char(n)]
    } else {
        decimal(n / 10) + seq![digit_char(n % 10)]
    }
}

/// The text of digit `d`.
pub(crate) fn digit_text(d: usize) -> (s: &'static str)
    requires
        d < 10,
    ensures
        s@ == seq![digit_char(d as nat)],
{
    if d == 0 {
        proof {
            reveal_strlit("0");
        }
        "0"
    } else if d == 1 {
        proof {
            reveal_strlit("1");
        }
        "1"
    } else if d == 2 {
        proof {
            reveal_strlit("2");
        }
        "2"
    } else if d == 3 {
        proof {
            reveal_strlit("3");
        }
        "3"
    } else if d == 4 {
        proof {
            reveal_strlit("4");
        }
        "4"
    } else if d == 5 {
        proof {
            reveal_strlit("5");
        }
        "5"
    } else if d == 6 {
        proof {
            reveal_strlit("6");
        }
        "6"
    } else if d == 7 {
        proof {
            reveal_strlit("7");
        }
        "7"
    } else if d == 8 {
        proof {
            reveal_strlit("8");
        }
        "8"
    } else {
        proof {
            reveal_strlit("9");
        }
        "9"
    }
}

/// The decimal rendering of `n`.
pub fn decimal_text(n: usize) -> (s: String)
    ensures
        s@ == decimal(n as nat),
    decreases n,
{
    let last = digit_text(n % 10);
    if n < 10 {
        last.to_owned()
    } else {
        decimal_text(n / 10).concat(last)
    }
}

/// Type `id` of `m` is `Never`.
pub open spec fn never_at(m: Map<u64, Type>, id: u64) -> bool {
    m.contains_key(id) && m[id] is Never
}

/// Property `i` of `props` requires a value and has type `Never`.
pub open spec fn never_prop(m: Map<u64, Type>, props: Seq<StructProperty>, i: int) -> bool {
    !(props[i].state is Optional) && never_at(m, props[i].type_id)
}

/// The first property from index `k` on that requires a value and has
/// type `Never`.
pub open spec fn first_never_prop(m: Map<u64, Type>, props: Seq<StructProperty>, k: int) -> Option<int>
    decreases props.len() - k,
{
    if k < 0 || k >= props.len() {
        None
    } else if never_prop(m, props, k) {
        Some(k)
    } else {
        first_never_prop(m, props, k + 1)
    }
}

/// The first of `ids` from index `k` on whose type is `Never`.
pub open spec fn first_never_id(m: Map<u64, Type>, ids: Seq<u64>, k: int) -> Option<int>
    decreases ids.len() - k,
{
    if k < 0 || k >= ids.len() {
        None
    } else if never_at(m, ids[k]) {
        Some(k)
    } else {
        first_never_id(m, ids, k + 1)
    }
}

/// The first hit among the properties lies in range and is a hit.
pub proof fn lemma_first_never_prop(m: Map<u64, Type>, props: Seq<StructProperty>, k: int)
    ensures
        first_never_prop(m, props, k) matches Some(i) ==> k <= i < props.len() && never_prop(m, props, i),
    decreases props.len() - k,
{
    if 0 <= k < props.len() && !never_prop(m, props, k) {
        lemma_first_never_prop(m, props, k + 1);
    }
}

/// The first hit among the IDs lies in range and is a hit.
pub proof fn lemma_first_never_id(m: Map<u64, Type>, ids: Seq<u64>, k: int)
    ensures
        first_never_id(m, ids, k) matches Some(i) ==> k <= i < ids.len() && never_at(m, ids[i]),
    decreases ids.len() - k,
{
    if 0 <= k < ids.len() && !never_at(m, ids[k]) {
        lemma_first_never_id(m, ids, k + 1);
    }
}

/// A position that holds `Never` where a value is required: a value
/// position with its kind and the name that locates it, or a transparent
/// wrapper with its kind.
pub enum NeverSpot {
    Value(Seq<char>, Seq<char>),
    Wrapper(Seq<char>),
}

/// The `Never` position of enum variant `v`, if it has one.
pub open spec fn variant_spot(m: Map<u64, Type>, v: EnumVariant) -> Option<NeverSpot> {
    match v.details {
        VariantDetails::Unit => None,
        VariantDetails::Item(id) => if never_at(m, id) {
            Some(NeverSpot::Value("variant payload"@, v.rust_name@))
        } else {
            None
        },
        VariantDetails::Tuple(ids) => match first_never_id(m, ids@, 0) {
            Some(i) => Some(NeverSpot::Value("variant payload component"@, v.rust_name@ + "."@ + decimal(i as nat))),
            None => None,
        },
        VariantDetails::Struct(props) => match first_never_prop(m, props@, 0) {
            Some(i) => Some(NeverSpot::Value("variant property"@, v.rust_name@ + "."@ + props@[i].rust_name@)),
            None => None,
        },
    }
}

/// The `Never` position of the first variant from index `k` on that has
/// one.
pub open spec fn first_variant_spot(m: Map<u64, Type>, vs: Seq<EnumVariant>, k: int) -> Option<NeverSpot>
    decreases vs.len() - k,
{
    if k < 0 || k >= vs.len() {
        None
    } else if variant_spot(m, vs[k]) is Some {
        variant_spot(m, vs[k])
    } else {
        first_variant_spot(m, vs, k + 1)
    }
}

/// The first position of `ty` that requires a value and holds `Never`.
///
/// A property that may be absent, either side of a map, and the element
/// of a vec, a set, or an empty array absorb a `Never`; so does an
/// option, whose `None` is a value, and a native's parameters, which are
/// the consumer's to interpret. A transparent wrapper around `Never` (a
/// box, a type alias, a newtype struct) is reported as such.
pub open spec fn never_spot(m: Map<u64, Type>, ty: Type) -> Option<NeverSpot> {
    match ty {
        Type::Struct(x) => match first_never_prop(m, x.properties@, 0) {
            Some(i) => Some(NeverSpot::Value("property"@, x.properties@[i].rust_name@)),
            None => None,
        },
        Type::Enum(e) => first_variant_spot(m, e.variants@, 0),
        Type::TupleStruct(x) => match first_never_id(m, x.fields@, 0) {
            Some(i) => Some(NeverSpot::Value("tuple struct field"@, decimal(i as nat))),
            None => match x.rest {
                Some(r) => if never_at(m, r) {
                    Some(NeverSpot::Value("tuple struct field"@, decimal(x.fields@.len())))
                } else {
                    None
                },
                None => None,
            },
        },
        Type::Tuple(ids) => match first_never_id(m, ids@, 0) {
            Some(i) => Some(NeverSpot::Value("tuple component"@, decimal(i as nat))),
            None => None,
        },
        Type::Array(id, len) => if len > 0 && never_at(m, id) {
            Some(NeverSpot::Value("array element"@, "item"@))
        } else {
            None
        },
        Type::Box(id) => if never_at(m, id) {
            Some(NeverSpot::Wrapper("Box"@))
        } else {
            None
        },
        Type::TypeAlias(a) => if never_at(m, a.target) {
            Some(NeverSpot::Wrapper("type alias"@))
        } else {
            None
        },
        Type::NewtypeStruct(n) => if never_at(m, n.inner) {
            Some(NeverSpot::Wrapper("newtype struct"@))
        } else {
            None
        },
        _ => None,
    }
}

/// `e` is the error that reports `spot` in type `t`.
pub open spec fn never_error(spot: NeverSpot, t: u64, e: Error) -> bool {
    match spot {
        NeverSpot::Value(p, n) => e matches Error::NeverInValuePosition { position, name, type_id } && position@ == p && name@
            == n && type_id == t,
        NeverSpot::Wrapper(w) => e matches Error::NeverInTransparentWrapper { wrapper, type_id } && wrapper@ == w && type_id
            == t,
    }
}

/// Whether type `id` of `types` is `Never`.
fn is_never(types: &BTreeMap<u64, Type>, id: u64) -> (b: bool)
    ensures
        b == never_at(types@, id),
{
    proof {
        lemma_u64_key_order();
    }
    match types.get(&id) {
        Some(Type::Never) => true,
        _ => false,
    }
}

/// The index of the first of `props` that requires a value and has type
/// `Never`.
fn never_property(types: &BTreeMap<u64, Type>, props: &Vec<StructProperty>) -> (r: Option<usize>)
    ensures
        r == (match first_never_prop(types@, props@, 0) {
            Some(i) => Some(i as usize),
            None => None::<usize>,
        }),
        r matches Some(i) ==> i < props@.len() && first_never_prop(types@, props@, 0) == Some(i as int),
{
    proof {
        lemma_first_never_prop(types@, props@, 0);
    }
    let mut i: usize = 0;
    while i < props.len()
        invariant
            i <= props@.len(),
            first_never_prop(types@, props@, 0) == first_never_prop(types@, props@, i as int),
        decreases props@.len() - i,
    {
        let optional = match props[i].state {
            StructPropertyState::Optional => true,
            _ => false,
        };
        if !optional && is_never(types, props[i].type_id) {
            return Some(i);
        }
        i = i + 1;
    }
    None
}

/// The index of the first of `ids` whose type is `Never`.
fn never_component(types: &BTreeMap<u64, Type>, ids: &Vec<u64>) -> (r: Option<usize>)
    ensures
        r == (match first_never_id(types@, ids@, 0) {
            Some(i) => Some(i as usize),
            None => None::<usize>,
        }),
        r matches Some(i) ==> i < ids@.len() && first_never_id(types@, ids@, 0) == Some(i as int),
{
    proof {
        lemma_first_never_id(types@, ids@, 0);
    }
    let mut i: usize = 0;
    while i < ids.len()
        invariant
            i <= ids@.len(),
            first_never_id(types@, ids@, 0) == first_never_id(types@, ids@, i as int),
        decreases ids@.len() - i,
    {
        if is_never(types, ids[i]) {
            return Some(i);
        }
        i = i + 1;
    }
    None
}

/// The error for the `Never` position of variant `v` of type `t`, if it
/// has one.
fn variant_never(types: &BTreeMap<u64, Type>, t: u64, v: &EnumVariant) -> (r: Option<Error>)
    ensures
        match variant_spot(types@, *v) {
            None => r is None,
            Some(spot) => r matches Some(e) && never_error(spot, t, e),
        },
{
    match &v.details {
        VariantDetails::Unit => None,
        VariantDetails::Item(id) => {
            if is_never(types, *id) {
                Some(Error::NeverInValuePosition { position: "variant payload", name: v.rust_name.clone(), type_id: t })
            } else {
                None
            }
        },
        VariantDetails::Tuple(ids) => match never_component(types, ids) {
            Some(i) => {
                let name = v.rust_name.clone().concat(".").concat(decimal_text(i).as_str());
                Some(Error::NeverInValuePosition { position: "variant payload component", name, type_id: t })
            },
            None => None,
        },
        VariantDetails::Struct(props) => match never_property(types, props) {
            Some(i) => {
                let name = v.rust_name.clone().concat(".").concat(props[i].rust_name.as_str());
                Some(Error::NeverInValuePosition { position: "variant property", name, type_id: t })
            },
            None => None,
        },
    }
}


/// The first error among the variants of `vs` from index `k` on.
fn variants_never(types: &BTreeMap<u64, Type>, t: u64, vs: &Vec<EnumVariant>) -> (r: Option<Error>)
    ensures
        match first_variant_spot(types@, vs@, 0) {
            None => r is None,
            Some(spot) => r matches Some(e) && never_error(spot, t, e),
        },
{
    let mut i: usize = 0;
    while i < vs.len()
        invariant
            i <= vs@.len(),
            first_variant_spot(types@, vs@, 0) == first_variant_spot(types@, vs@, i as int),
        decreases vs@.len() - i,
    {
        let found = variant_never(types, t, &vs[i]);
        if found.is_some() {
            return found;
        }
        i = i + 1;
    }
    None
}

/// The error for the first position of `typ` (the type with ID `t`) that
/// requires a value and holds `Never`, if there is one.
fn never_position(types: &BTreeMap<u64, Type>, t: u64, typ: &Type) -> (r: Option<Error>)
    ensures
        match never_spot(types@, *typ) {
            None => r is None,
            Some(spot) => r matches Some(e) && never_error(spot, t, e),
        },
{
    match typ {
        Type::Struct(x) => match never_property(types, &x.properties) {
            Some(i) => Some(Error::NeverInValuePosition { position: "property", name: x.properties[i].rust_name.clone(), type_id: t }),
            None => None,
        },
        Type::Enum(e) => variants_never(types, t, &e.variants),
        Type::TupleStruct(x) => match never_component(types, &x.fields) {
            Some(i) => Some(Error::NeverInValuePosition { position: "tuple struct field", name: decimal_text(i), type_id: t }),
            None => match x.rest {
                Some(r) => {
                    if is_never(types, r) {
                        Some(Error::NeverInValuePosition { position: "tuple struct field", name: decimal_text(x.fields.len()), type_id: t })
                    } else {
                        None
                    }
                },
                None => None,
            },
        },
        Type::Tuple(ids) => match never_component(types, ids) {
            Some(i) => Some(Error::NeverInValuePosition { position: "tuple component", name: decimal_text(i), type_id: t }),
            None => None,
        },
        Type::Array(id, len) => {
            if *len > 0 && is_never(types, *id) {
                Some(Error::NeverInValuePosition { position: "array element", name: "item".to_owned(), type_id: t })
            } else {
                None
            }
        },
        Type::Box(id) => {
            if is_never(types, *id) {
                Some(Error::NeverInTransparentWrapper { wrapper: "Box", type_id: t })
            } else {
                None
            }
        },
        Type::TypeAlias(a) => {
            if is_never(types, a.target) {
                Some(Error::NeverInTransparentWrapper { wrapper: "type alias", type_id: t })
            } else {
                None
            }
        },
        Type::NewtypeStruct(n) => {
            if is_never(types, n.inner) {
                Some(Error::NeverInTransparentWrapper { wrapper: "newtype struct", type_id: t })
            } else {
                None
            }
        },
        _ => None,
    }
}

/// No type of `m` holds `Never` where a value is required.
pub open spec fn never_free(m: Map<u64, Type>) -> bool {
    forall|t: u64| #[trigger] m.contains_key(t) ==> never_spot(m, m[t]) is None
}

/// `e` reports the `Never` position of the least type ID of `m` that has
/// one.
pub open spec fn never_report(m: Map<u64, Type>, e: Error) -> bool {
    exists|t: u64|
        #[trigger] m.contains_key(t) && never_spot(m, m[t]) is Some && never_error(never_spot(m, m[t])->0, t, e) && forall|u: u64|
            #[trigger] m.contains_key(u) && u < t ==> never_spot(m, m[u]) is None
}


/// The default value type `t` of `m` carries, if any.
pub open spec fn type_default(m: Map<u64, Type>, t: u64) -> Option<JsonValue> {
    match m[t].common_of() {
        Some(c) => c.default,
        None => None,
    }
}

/// The check of every type's default value comes to an answer.
pub open spec fn defaults_settle(m: Map<u64, Type>, s: Settings) -> bool {
    forall|t: u64|
        #[trigger] m.contains_key(t) && type_default(m, t) is Some ==> default_settles(m, s.optional_nullable, t, json_of(type_default(m, t)->0))
}

/// Every type's default value is valid for the type.
pub open spec fn defaults_ok(m: Map<u64, Type>, s: Settings) -> bool {
    forall|t: u64|
        #[trigger] m.contains_key(t) && type_default(m, t) is Some ==> default_fits(m, s.optional_nullable, t, json_of(type_default(m, t)->0))
}

/// The checks that precede the check of default values all pass.
pub open spec fn shape_checks_pass(m: Map<u64, Type>, s: Settings) -> bool {
    &&& derives_ok(s)
    &&& containers_ok(s)
    &&& containers_answer(s)
    &&& wrapper_default_ok(s)
    &&& closed(m)
    &&& names_distinct(m)
}

/// The checks finalization applies before it changes anything all pass.
pub open spec fn checks_pass(m: Map<u64, Type>, s: Settings) -> bool {
    &&& shape_checks_pass(m, s)
    &&& defaults_ok(m, s)
    &&& never_free(m)
}

/// `e` reports the first of those checks that fails.
pub open spec fn check_error(m: Map<u64, Type>, s: Settings, e: Error) -> bool {
    if !derives_ok(s) {
        derive_error(s, e)
    } else if !containers_ok(s) {
        container_error(s, e)
    } else if !containers_answer(s) {
        unknown_error(s, e)
    } else if !wrapper_default_ok(s) {
        wrapper_error(s, e)
    } else if !closed(m) {
        reference_error(m, e)
    } else if !names_distinct(m) {
        name_error(m, e)
    } else if !defaults_ok(m, s) {
        e is InvalidDefault
    } else {
        never_report(m, e)
    }
}

/// What finalization does once the checks pass, given the graph `m2` that
/// cycle breaking produced, with named types starting from empty trait
/// sets: a cycle through anonymous types is an error
/// naming one of its edges; a requirement some type cannot meet is an
/// error listing every conflict; otherwise the typespace holds the
/// resolved graph under the settings.
pub open spec fn finalize_outcome(m2: Map<u64, Type>, s: Settings, r: Result<Typespace, Error>) -> bool {
    if !anon_acyclic(m2) {
        r matches Err(e) && (e matches Error::AnonymousCycle { type_id, child_id } && anon_edge(m2, type_id, child_id)
            && exists|p: Seq<u64>| anon_path(m2, p) && p[0] == child_id && p.last() == type_id)
    } else if !requirements_met(m2, s) {
        r matches Err(e) && (e matches Error::TraitConflicts { conflicts } && conflicts_exact(conflicts@, m2, s))
    } else {
        r matches Ok(ts) && ts.settings_of() == s && exists|mid: Map<u64, Type>|
            required_resolved(m2, s, mid) && #[trigger] desired_resolved(mid, s, ts.types_of())
    }
}

/// A `make_box_id` argument for finalization that asserts the type graph
/// has no containment cycles: finalization then never calls it. It must
/// never be called at all, and its `requires` says so: no argument meets
/// it. Called anyway, it panics.
pub fn no_cycles(id: &u64) -> (r: u64)
    requires
        *id < *id,
{
    let none: Option<u64> = None;
    none.expect("unexpected cycle in typespace")
}

/// A finalized, validated collection of types.
///
/// Produced by [`TypespaceBuilder::finalize`]. Inspect individual types
/// with [`Typespace::get_type`] and [`Typespace::iter_types`].
pub struct Typespace {
    types: BTreeMap<u64, Type>,
    settings: Settings,
}

/// Every named type of `m` records the traits finalization gave it.
pub open spec fn builts_present(m: Map<u64, Type>) -> bool {
    forall|t: u64| #[trigger] m.contains_key(t) && m[t].spec_is_named() ==> m[t].built_of() is Some
}

impl Typespace {
    /// Every reference resolves, every named type has a name, and no
    /// cycle runs through anonymous types only.
    #[verifier::type_invariant]
    pub open spec fn sound(self) -> bool {
        &&& closed(self.types_of())
        &&& anon_acyclic(self.types_of())
        &&& names_present(self.types_of())
        &&& builts_present(self.types_of())
    }

    /// The settings supplied at finalization.
    pub fn settings(&self) -> (r: &Settings)
        ensures
            *r == self.settings_of(),
    {
        &self.settings
    }

    /// The Rust text naming type `id` where it is used: a named type by
    /// its name, any other type spelled out from the types it holds.
    pub fn ident(&self, id: u64) -> (r: String)
        requires
            self.types_of().contains_key(id),
        ensures
            r@ == type_ident(self.types_of(), self.settings_of(), id, None, false),
    {
        proof {
            use_type_invariant(self);
            lemma_nameable(self.types@, self.settings, id, None, false);
        }
        type_ident_text(&self.types, &self.settings, id, None, false)
    }

    /// Like [`Typespace::ident`], with named types qualified by the
    /// module `scope`.
    pub fn ident_in(&self, id: u64, scope: &str) -> (r: String)
        requires
            self.types_of().contains_key(id),
        ensures
            r@ == type_ident(self.types_of(), self.settings_of(), id, Some(scope@), false),
    {
        proof {
            use_type_invariant(self);
            lemma_nameable(self.types@, self.settings, id, Some(scope@), false);
        }
        type_ident_text(&self.types, &self.settings, id, Some(scope), false)
    }

    /// Type `id` as a function parameter, named types qualified by
    /// `scope` and references carrying `lifetime`: what
    /// [`parameter_type`](crate::params::parameter_type) says.
    pub fn parameter_type(&self, id: u64, scope: Option<&str>, lifetime: Option<&str>) -> (r: String)
        requires
            self.types_of().contains_key(id),
        ensures
            r@ == crate::params::parameter_type(self.types_of(), self.settings_of(), id, scope_view(scope), scope_view(lifetime)),
    {
        proof {
            use_type_invariant(self);
            lemma_nameable(self.types@, self.settings, id, scope_view(scope), false);
        }
        crate::params::parameter_type_text(&self.types, &self.settings, id, scope, lifetime)
    }

    /// The finalized types, by ID.
    pub closed spec fn types_of(&self) -> Map<u64, Type> {
        self.types@
    }

    /// The settings supplied at finalization.
    pub closed spec fn settings_of(&self) -> Settings {
        self.settings
    }

    /// The typespace holds finitely many types.
    pub proof fn lemma_types_finite(&self)
        ensures
            self.types_of().dom().finite(),
    {
    }

    /// The settings supplied at finalization.
    pub(crate) fn settings_ref(&self) -> (r: &Settings)
        ensures
            *r == self.settings_of(),
    {
        &self.settings
    }

    /// The type with ID `id`.
    pub(crate) fn type_at(&self, id: u64) -> (r: &Type)
        requires
            self.types_of().contains_key(id),
        ensures
            *r == self.types_of()[id],
    {
        proof {
            lemma_u64_key_order();
        }
        self.types.get(&id).unwrap()
    }

    /// The item of type alias `id`: its description as a doc attribute,
    /// then `pub type`, its name, and the text of its target.
    pub fn render_alias(&self, id: u64) -> (r: String)
        requires
            self.types_of().contains_key(id),
            self.types_of()[id] is TypeAlias,
        ensures
            r@ == alias_item_text(self.types_of(), self.settings_of(), id),
    {
        proof {
            use_type_invariant(self);
            let m = self.types@;
            assert(m[id].spec_children().contains(m[id]->TypeAlias_0.target)) by {
                assert(m[id].spec_children()[0] == m[id]->TypeAlias_0.target);
            }
            lemma_nameable(m, self.settings, m[id]->TypeAlias_0.target, None, false);
        }
        crate::render::render_alias(&self.types, &self.settings, id)
    }

    /// The item generated for unit struct `id`: what
    /// [`unit_struct_item_text`](crate::items::unit_struct_item_text) says.
    pub fn render_unit_struct(&self, id: u64) -> (r: String)
        requires
            self.types_of().contains_key(id),
            self.types_of()[id] is UnitStruct,
            !crate::items::item_traits(self.types_of(), id).contains(crate::traits::TypespaceTrait::Display),
            !crate::items::item_traits(self.types_of(), id).contains(crate::traits::TypespaceTrait::FromStr),
        ensures
            r@ == crate::items::unit_struct_item_text(self.types_of(), self.settings_of(), id),
    {
        proof {
            use_type_invariant(self);
            assert(self.types@[id].spec_is_named());
        }
        crate::items::render_unit_struct(&self.types, &self.settings, id)
    }

    /// The item generated for tuple struct `id`: what
    /// [`tuple_struct_item_text`](crate::items::tuple_struct_item_text)
    /// says.
    pub fn render_tuple_struct(&self, id: u64) -> (r: String)
        requires
            self.types_of().contains_key(id),
            self.types_of()[id] is TupleStruct,
            !crate::items::item_traits(self.types_of(), id).contains(crate::traits::TypespaceTrait::Display),
            !crate::items::item_traits(self.types_of(), id).contains(crate::traits::TypespaceTrait::FromStr),
        ensures
            r@ == crate::items::tuple_struct_item_text(self.types_of(), self.settings_of(), id),
    {
        proof {
            use_type_invariant(self);
            let m = self.types@;
            assert(m[id].spec_is_named());
            let ids = crate::build::tuple_struct_ids(m[id]->TupleStruct_0);
            assert forall|i: int| 0 <= i < ids.len() implies nameable(m, self.settings, #[trigger] ids[i], None, false) by {
                assert(m[id].spec_children()[i] == ids[i]);
                assert(m[id].spec_children().contains(ids[i]));
                lemma_nameable(m, self.settings, ids[i], None, false);
            }
        }
        crate::items::render_tuple_struct(&self.types, &self.settings, id)
    }

    /// The item generated for newtype struct `id`, unconstrained or
    /// constrained as a string: what
    /// [`newtype_item_text`](crate::items::newtype_item_text) says.
    pub fn render_newtype_struct(&self, id: u64) -> (r: String)
        requires
            self.types_of().contains_key(id),
            self.types_of()[id] is NewtypeStruct,
            self.types_of()[id]->NewtypeStruct_0.constraints is Unconstrained || self.types_of()[id]->NewtypeStruct_0.constraints is String,
            !crate::items::newtype_derived(
                crate::items::item_traits(self.types_of(), id),
                self.types_of()[id]->NewtypeStruct_0.constraints,
            ).contains(crate::traits::TypespaceTrait::Display),
            !crate::items::newtype_derived(
                crate::items::item_traits(self.types_of(), id),
                self.types_of()[id]->NewtypeStruct_0.constraints,
            ).contains(crate::traits::TypespaceTrait::FromStr),
        ensures
            r@ == crate::items::newtype_item_text(self.types_of(), self.settings_of(), id),
    {
        proof {
            use_type_invariant(self);
            let m = self.types@;
            assert(m[id].spec_is_named());
            let inner = m[id]->NewtypeStruct_0.inner;
            assert(m[id].spec_children()[0] == inner);
            assert(m[id].spec_children().contains(inner));
            lemma_nameable(m, self.settings, inner, None, false);
        }
        crate::items::render_newtype_struct(&self.types, &self.settings, id)
    }

    /// The `From` impls generated for enum `id`: what
    /// [`variant_from_text`](crate::variants::variant_from_text) says.
    pub fn render_variant_from(&self, id: u64) -> (r: String)
        requires
            self.types_of().contains_key(id),
            self.types_of()[id] is Enum,
        ensures
            r@ == crate::variants::variant_from_text(self.types_of(), self.settings_of(), id),
    {
        proof {
            use_type_invariant(self);
            let m = self.types@;
            assert(m[id].spec_is_named());
            assert forall|x: u64| #[trigger] crate::build::variants_ids(m[id]->Enum_0.variants@).contains(x) implies nameable(
                m,
                self.settings,
                x,
                None,
                false,
            ) by {
                assert(m[id].spec_children().contains(x));
                lemma_nameable(m, self.settings, x, None, false);
            }
        }
        crate::variants::render_variant_from(&self.types, &self.settings, id)
    }

    /// The `Display` and `FromStr` impls generated by hand for enum `id`:
    /// what [`special_impls_text`](crate::variants::special_impls_text)
    /// says.
    pub fn render_enum_impls(&self, id: u64) -> (r: String)
        requires
            self.types_of().contains_key(id),
            self.types_of()[id] is Enum,
        ensures
            r@ == crate::variants::special_impls_text(self.types_of(), self.settings_of(), id),
    {
        proof {
            use_type_invariant(self);
            assert(self.types@[id].spec_is_named());
        }
        crate::variants::render_special_impls(&self.types, &self.settings, id)
    }

    /// The traits finalization gave type `id`, when it is a named type.
    pub fn built_traits(&self, id: u64) -> (r: Option<TypespaceTraitSet>)
        requires
            self.types_of().contains_key(id),
        ensures
            r == self.types_of()[id].built_of(),
    {
        self.type_at(id).built_traits()
    }

    /// Look up a type by its ID.
    ///
    /// Every ID inserted into the builder, and every box ID generated
    /// during finalization, names a type.
    pub fn get_type(&self, id: u64) -> (r: crate::view::Type<'_>)
        requires
            self.types_of().contains_key(id),
        ensures
            r.space() == *self,
            r.type_id() == id,
            r.shape() == self.types_of()[id],
    {
        crate::view::Type::at(self, id)
    }

    /// Views of all types in the typespace, in increasing order of ID.
    pub fn iter_types(&self) -> (v: Vec<crate::view::Type<'_>>)
        ensures
            forall|k: u64| self.types_of().contains_key(k) <==> exists|i: int| 0 <= i < v@.len() && #[trigger] v@[i].type_id() == k,
            forall|i: int, j: int| 0 <= i < j < v@.len() ==> v@[i].type_id() < v@[j].type_id(),
            forall|i: int|
                0 <= i < v@.len() ==> (#[trigger] v@[i]).space() == *self && v@[i].shape() == self.types_of()[v@[i].type_id()],
    {
        let keys = sorted_keys(&self.types);
        let mut out: Vec<crate::view::Type<'_>> = Vec::new();
        let mut i: usize = 0;
        while i < keys.len()
            invariant
                i <= keys@.len(),
                forall|k: u64| #[trigger] keys@.contains(k) <==> self.types_of().contains_key(k),
                forall|a: int, b: int| 0 <= a < b < keys@.len() ==> keys@[a] < keys@[b],
                out@.len() == i,
                forall|k: int|
                    0 <= k < i ==> (#[trigger] out@[k]).type_id() == keys@[k] && out@[k].space() == *self && out@[k].shape()
                        == self.types_of()[keys@[k]],
            decreases keys@.len() - i,
        {
            proof {
                assert(keys@.contains(keys@[i as int]));
            }
            out.push(self.get_type(keys[i]));
            i = i + 1;
        }
        proof {
            assert forall|k: u64| self.types_of().contains_key(k) implies exists|i: int|
                0 <= i < out@.len() && #[trigger] out@[i].type_id() == k by {
                assert(keys@.contains(k));
                let i = choose|i: int| 0 <= i < keys@.len() && keys@[i] == k;
                assert(out@[i].type_id() == k);
            }
            assert forall|k: u64| (exists|i: int| 0 <= i < out@.len() && #[trigger] out@[i].type_id() == k) implies self.types_of().contains_key(
                k,
            ) by {
                let i = choose|i: int| 0 <= i < out@.len() && #[trigger] out@[i].type_id() == k;
                assert(keys@.contains(keys@[i]));
            }
        }
        out
    }
}

/// Accumulates the type graph prior to finalization.
///
/// Create one from [`Settings`] with [`TypespaceBuilder::new`] (or
/// [`TypespaceBuilder::default`] for typical settings), insert every
/// type, each named type along with every built-in and container type
/// it references, under a caller-chosen ID with
/// [`TypespaceBuilder::insert`], then call [`TypespaceBuilder::finalize`]
/// to validate the graph and produce a [`Typespace`].
pub struct TypespaceBuilder {
    types: BTreeMap<u64, Type>,
    settings: Settings,
}

impl TypespaceBuilder {
    /// Every inserted type passed the checks `build()` applies.
    #[verifier::type_invariant]
    spec fn inserted_valid(self) -> bool {
        all_valid(self.types@)
    }

    /// The types inserted so far, by ID.
    pub closed spec fn types_of(&self) -> Map<u64, Type> {
        self.types@
    }

    /// The settings that govern finalization.
    pub closed spec fn settings_of(&self) -> Settings {
        self.settings
    }

    /// Create a builder whose finalization is governed by `settings`.
    pub fn new(settings: Settings) -> (b: Self)
        ensures
            b.types_of() == Map::<u64, Type>::empty(),
            b.settings_of() == settings,
    {
        TypespaceBuilder { types: BTreeMap::new(), settings }
    }

    /// Add a type under the given ID.
    ///
    /// The IDs that `typ` refers to need not be present yet, but each
    /// must be inserted before finalization. The shape checks that
    /// `build()` applies run again first, so no unvalidated shape enters
    /// the typespace; then an ID already in use is
    /// [`Error::DuplicateTypeId`]. A failed insertion changes nothing.
    pub fn insert(&mut self, id: u64, typ: Type) -> (r: Result<(), Error>)
        ensures
            r is Ok <==> typ.spec_valid() && !old(self).types_of().contains_key(id),
            r is Ok ==> final(self).types_of() == old(self).types_of().insert(id, typ),
            r is Err ==> final(self).types_of() == old(self).types_of(),
            !typ.spec_valid() ==> typ.validated(r),
            typ.spec_valid() && old(self).types_of().contains_key(id) ==> (r matches Err(Error::DuplicateTypeId { type_id })
                && type_id == id),
            final(self).settings_of() == old(self).settings_of(),
    {
        proof {
            lemma_u64_key_order();
            use_type_invariant(&*self);
        }
        let checked = typ.validate_built();
        if checked.is_err() {
            return checked;
        }
        if self.types.contains_key(&id) {
            return Err(Error::DuplicateTypeId { type_id: id });
        }
        let mut types: BTreeMap<u64, Type> = BTreeMap::new();
        std::mem::swap(&mut types, &mut self.types);
        types.insert(id, typ);
        self.types = types;
        Ok(())
    }

    /// Whether a type has already been inserted under the given ID.
    pub fn contains_type(&self, id: u64) -> (b: bool)
        ensures
            b == self.types_of().contains_key(id),
    {
        proof {
            lemma_u64_key_order();
        }
        self.types.contains_key(&id)
    }

    /// The Rust text naming inserted type `id` where it is used, before
    /// finalization: named types by name, others spelled out under the
    /// builder's settings (container overrides, `std` syntax). No
    /// cycle-breaking box exists yet.
    pub fn ident(&self, id: u64) -> (r: String)
        requires
            nameable(self.types_of(), self.settings_of(), id, None, false),
        ensures
            r@ == type_ident(self.types_of(), self.settings_of(), id, None, false),
    {
        type_ident_text(&self.types, &self.settings, id, None, false)
    }

    /// Like [`TypespaceBuilder::ident`], with named types qualified by
    /// the module `scope`.
    pub fn ident_in(&self, id: u64, scope: &str) -> (r: String)
        requires
            nameable(self.types_of(), self.settings_of(), id, Some(scope@), false),
        ensures
            r@ == type_ident(self.types_of(), self.settings_of(), id, Some(scope@), false),
    {
        type_ident_text(&self.types, &self.settings, id, Some(scope), false)
    }

    /// The text of inserted type `id` as a function parameter type,
    /// before finalization: a complex owned type is borrowed (prefixed
    /// with `&`); a primitive or an option is unchanged.
    pub fn parameter_ident(&self, id: u64) -> (r: String)
        requires
            nameable(self.types_of(), self.settings_of(), id, None, false),
        ensures
            r@ == parameter_text(self.types_of(), self.settings_of(), id, None),
    {
        parameter_ident_text(&self.types, &self.settings, id, None)
    }

    /// Like [`TypespaceBuilder::parameter_ident`], with named types
    /// qualified by the module `scope`.
    pub fn parameter_ident_in(&self, id: u64, scope: &str) -> (r: String)
        requires
            nameable(self.types_of(), self.settings_of(), id, Some(scope@), false),
        ensures
            r@ == parameter_text(self.types_of(), self.settings_of(), id, Some(scope@)),
    {
        parameter_ident_text(&self.types, &self.settings, id, Some(scope))
    }

    /// Reject extra derives that do not parse as paths, so that
    /// rendering can rely on them.
    fn check_derives(&self) -> (r: Result<(), Error>)
        ensures
            r is Ok <==> derives_ok(self.settings),
            r matches Err(e) ==> derive_error(self.settings, e),
    {
        let derives = &self.settings.extra_derives;
        let mut i: usize = 0;
        while i < derives.len()
            invariant
                i <= derives@.len(),
                derives@ == self.settings.extra_derives@,
                forall|j: int| 0 <= j < i ==> spec_path_parse_error(#[trigger] derives@[j]@) is None,
            decreases derives@.len() - i,
        {
            match path_parse_error(derives[i].as_str()) {
                Some(message) => {
                    let e = Error::InvalidDerive { derive: derives[i].clone(), message };
                    proof {
                        assert(derive_error(self.settings, e));
                    }
                    return Err(e);
                },
                None => {},
            }
            i = i + 1;
        }
        Ok(())
    }

    /// Verify that each configured container answers every trait, and
    /// that a custom optional-nullable wrapper has `Default` whatever it
    /// wraps.
    fn check_container_answers(&self) -> (r: Result<(), Error>)
        ensures
            r is Ok <==> containers_answer(self.settings) && wrapper_default_ok(self.settings),
            r matches Err(e) ==> if !containers_answer(self.settings) {
                unknown_error(self.settings, e)
            } else {
                wrapper_error(self.settings, e)
            },
    {
        let s = &self.settings;
        proof {
            lemma_unknown_from(s.map_type);
            lemma_unknown_from(s.set_type);
            lemma_unknown_from(s.vec_type);
        }
        match first_unknown(&s.map_type) {
            Some(t) => {
                return Err(Error::ContainerProvisionUnknown { position: "map", path: s.map_type.path().to_owned(), trait_: t });
            },
            None => {},
        }
        match first_unknown(&s.set_type) {
            Some(t) => {
                return Err(Error::ContainerProvisionUnknown { position: "set", path: s.set_type.path().to_owned(), trait_: t });
            },
            None => {},
        }
        match first_unknown(&s.vec_type) {
            Some(t) => {
                return Err(Error::ContainerProvisionUnknown { position: "vec", path: s.vec_type.path().to_owned(), trait_: t });
            },
            None => {},
        }
        match &s.optional_nullable {
            OptionalNullable::CustomType(c) => {
                proof {
                    lemma_unknown_from(*c);
                }
                match first_unknown(c) {
                    Some(t) => {
                        return Err(
                            Error::ContainerProvisionUnknown {
                                position: "optional-nullable",
                                path: c.path().to_owned(),
                                trait_: t,
                            },
                        );
                    },
                    None => {},
                }
                let provision = c.provision(TypespaceTrait::Default);
                match provision {
                    TraitProvision::Always => {},
                    _ => {
                        return Err(Error::OptionalNullableWrapperDefault { path: c.path().to_owned(), provision });
                    },
                }
            },
            _ => {},
        }
        Ok(())
    }

    /// Verify that each configured container declares what it demands of
    /// every type parameter of the position it renders.
    fn check_containers(&self) -> (r: Result<(), Error>)
        ensures
            r is Ok <==> containers_ok(self.settings),
            r matches Err(e) ==> container_error(self.settings, e),
    {
        let map_declared = self.settings.map_type.obligations().len();
        if map_declared != 2 {
            return Err(
                Error::ContainerParameterCount {
                    position: "map",
                    path: self.settings.map_type.path().to_owned(),
                    declared: map_declared,
                    parameters: 2,
                },
            );
        }
        let set_declared = self.settings.set_type.obligations().len();
        if set_declared != 1 {
            return Err(
                Error::ContainerParameterCount {
                    position: "set",
                    path: self.settings.set_type.path().to_owned(),
                    declared: set_declared,
                    parameters: 1,
                },
            );
        }
        let vec_declared = self.settings.vec_type.obligations().len();
        if vec_declared != 1 {
            return Err(
                Error::ContainerParameterCount {
                    position: "vec",
                    path: self.settings.vec_type.path().to_owned(),
                    declared: vec_declared,
                    parameters: 1,
                },
            );
        }
        Ok(())
    }

    /// Verify that every type ID a type refers to names an inserted type;
    /// later steps rely on those lookups.
    fn check_references(&self) -> (r: Result<(), Error>)
        ensures
            r is Ok <==> closed(self.types@),
            r matches Err(e) ==> reference_error(self.types@, e),
    {
        proof {
            lemma_u64_key_order();
        }
        let ghost m = self.types@;
        let keys = sorted_keys(&self.types);
        let mut i: usize = 0;
        while i < keys.len()
            invariant
                m == self.types@,
                i <= keys@.len(),
                forall|k: u64| #[trigger] keys@.contains(k) <==> m.contains_key(k),
                forall|a: int, b: int| 0 <= a < b < keys@.len() ==> keys@[a] < keys@[b],
                forall|k: int| 0 <= k < i ==> !dangles(m, #[trigger] keys@[k]),
            decreases keys@.len() - i,
        {
            let t = keys[i];
            proof {
                assert(keys@.contains(t));
            }
            let kids = self.types.get(&t).unwrap().children();
            match first_missing(&self.types, &kids) {
                Some(j) => {
                    let c = kids[j];
                    let e = Error::UnknownTypeId { type_id: t, child_id: c };
                    proof {
                        assert forall|u: u64| #[trigger] m.contains_key(u) && u < t implies !dangles(m, u) by {
                            assert(keys@.contains(u));
                            let k = choose|k: int| 0 <= k < keys@.len() && keys@[k] == u;
                            if k > i {
                                assert(keys@[i as int] < keys@[k]);
                            }
                        }
                        assert(m[t].spec_children()[j as int] == c);
                        assert forall|k: int| 0 <= k < j implies m.contains_key(#[trigger] m[t].spec_children()[k]) by {
                            assert(kids@[k] == m[t].spec_children()[k]);
                        }
                        assert(exists|i: int|
                            0 <= i < m[t].spec_children().len() && #[trigger] m[t].spec_children()[i] == c && !m.contains_key(c)
                                && forall|k: int| 0 <= k < i ==> m.contains_key(#[trigger] m[t].spec_children()[k]));
                    }
                    return Err(e);
                },
                None => {},
            }
            proof {
                assert(!dangles(m, t)) by {
                    if dangles(m, t) {
                        let c = choose|c: u64| #[trigger] m[t].spec_children().contains(c) && !m.contains_key(c);
                        let k = choose|k: int| 0 <= k < kids@.len() && kids@[k] == c;
                    }
                }
            }
            i = i + 1;
        }
        proof {
            assert forall|a: u64, b: u64| m.contains_key(a) && (#[trigger] m[a].spec_children()).contains(b) implies #[trigger] m.contains_key(b) by {
                assert(keys@.contains(a));
                let k = choose|k: int| 0 <= k < keys@.len() && keys@[k] == a;
                assert(!dangles(m, keys@[k]));
            }
        }
        Ok(())
    }

    /// Verify that no two named types share a name.
    ///
    /// Names come from the consumer, which owns collision-free naming;
    /// this backstops naming bugs. Typespace never renames.
    fn check_type_names(&self) -> (r: Result<(), Error>)
        ensures
            r is Ok <==> names_distinct(self.types@),
            r matches Err(e) ==> name_error(self.types@, e),
    {
        proof {
            lemma_u64_key_order();
            use_type_invariant(self);
        }
        let ghost m = self.types@;
        let keys = sorted_keys(&self.types);
        let mut seen: Vec<(String, u64)> = Vec::new();
        let mut i: usize = 0;
        while i < keys.len()
            invariant
                m == self.types@,
                all_valid(m),
                i <= keys@.len(),
                forall|k: u64| #[trigger] keys@.contains(k) <==> m.contains_key(k),
                forall|a: int, b: int| 0 <= a < b < keys@.len() ==> keys@[a] < keys@[b],
                forall|k: int| 0 <= k < seen@.len() ==> m.contains_key(#[trigger] seen@[k].1) && m[seen@[k].1].spec_is_named()
                    && seen@[k].0@ == type_name_of(m[seen@[k].1]) && keys@.take(i as int).contains(seen@[k].1),
                forall|u: u64| #[trigger] keys@.take(i as int).contains(u) && m[u].spec_is_named() ==> exists|k: int|
                    0 <= k < seen@.len() && seen@[k].1 == u,
                forall|a: u64, b: u64|
                    #![trigger type_name_of(m[a]), type_name_of(m[b])]
                    keys@.take(i as int).contains(a) && keys@.take(i as int).contains(b) && a != b && m[a].spec_is_named()
                        && m[b].spec_is_named() ==> type_name_of(m[a]) != type_name_of(m[b]),
            decreases keys@.len() - i,
        {
            let t = keys[i];
            proof {
                assert(keys@.contains(t));
                assert forall|u: u64| #[trigger] keys@.take(i + 1).contains(u) <==> (keys@.take(i as int).contains(u) || u == t) by {
                    if keys@.take(i + 1).contains(u) {
                        let n = choose|n: int| 0 <= n < i + 1 && #[trigger] keys@.take(i + 1)[n] == u;
                        if n < i {
                            assert(keys@.take(i as int)[n] == u);
                        }
                    }
                    if keys@.take(i as int).contains(u) {
                        let n = choose|n: int| 0 <= n < i && #[trigger] keys@.take(i as int)[n] == u;
                        assert(keys@.take(i + 1)[n] == u);
                    }
                    if u == t {
                        assert(keys@.take(i + 1)[i as int] == u);
                    }
                }
                assert forall|u: u64| #[trigger] keys@.take(i as int).contains(u) implies u < t by {
                    let n = choose|n: int| 0 <= n < i && #[trigger] keys@.take(i as int)[n] == u;
                    assert(keys@[n] == u);
                }
            }
            let ty = self.types.get(&t).unwrap();
            match ty.common() {
                Some(common) => {
                    let name = common.built_name();
                    let owned = name.to_owned();
                    match find_name(&seen, &owned) {
                        Some(k) => {
                            let first = seen[k].1;
                            let e = Error::DuplicateTypeName { name: owned, first, second: t };
                            proof {
                                assert(keys@.take(i as int).contains(first));
                                assert forall|a: u64, b: u64|
                                    #![trigger type_name_of(m[a]), type_name_of(m[b])]
                                    m.contains_key(a) && m.contains_key(b) && a < t && b < t && a != b && m[a].spec_is_named()
                                        && m[b].spec_is_named() implies type_name_of(m[a]) != type_name_of(m[b]) by {
                                    assert(keys@.contains(a));
                                    assert(keys@.contains(b));
                                    let na = choose|n: int| 0 <= n < keys@.len() && keys@[n] == a;
                                    let nb = choose|n: int| 0 <= n < keys@.len() && keys@[n] == b;
                                    if na > i {
                                        assert(keys@[i as int] < keys@[na]);
                                    }
                                    if nb > i {
                                        assert(keys@[i as int] < keys@[nb]);
                                    }
                                    assert(keys@.take(i as int)[na] == a);
                                    assert(keys@.take(i as int)[nb] == b);
                                }
                                assert(name_error(m, e));
                            }
                            return Err(e);
                        },
                        None => {},
                    }
                    let ghost s0 = seen@;
                    seen.push((owned, t));
                    proof {
                        assert forall|a: u64, b: u64|
                            #![trigger type_name_of(m[a]), type_name_of(m[b])]
                            keys@.take(i + 1).contains(a) && keys@.take(i + 1).contains(b) && a != b && m[a].spec_is_named()
                                && m[b].spec_is_named() implies type_name_of(m[a]) != type_name_of(m[b]) by {
                            if a == t {
                                assert(keys@.take(i as int).contains(b));
                                let n = choose|n: int| 0 <= n < s0.len() && s0[n].1 == b;
                                assert(s0[n].0@ != owned@);
                            } else if b == t {
                                assert(keys@.take(i as int).contains(a));
                                let n = choose|n: int| 0 <= n < s0.len() && s0[n].1 == a;
                                assert(s0[n].0@ != owned@);
                            }
                        }
                        assert forall|u: u64| #[trigger] keys@.take(i + 1).contains(u) && m[u].spec_is_named() implies exists|n: int|
                            0 <= n < seen@.len() && seen@[n].1 == u by {
                            if u == t {
                                assert(seen@[seen@.len() - 1].1 == u);
                            } else {
                                assert(keys@.take(i as int).contains(u));
                                let n = choose|n: int| 0 <= n < s0.len() && s0[n].1 == u;
                                assert(seen@[n] == s0[n]);
                            }
                        }
                    }
                },
                None => {},
            }
            i = i + 1;
        }
        proof {
            assert(keys@.take(keys@.len() as int) == keys@);
        }
        Ok(())
    }

    /// Check every type's default value, in the order of type IDs.
    fn check_type_defaults(&self) -> (r: Result<(), Error>)
        requires
            defaults_settle(self.types@, self.settings),
        ensures
            r is Ok <==> defaults_ok(self.types@, self.settings),
            r matches Err(e) ==> e is InvalidDefault,
    {
        proof {
            lemma_u64_key_order();
        }
        let ghost m = self.types@;
        let ghost s = self.settings;
        let keys = sorted_keys(&self.types);
        let mut i: usize = 0;
        while i < keys.len()
            invariant
                m == self.types@,
                s == self.settings,
                defaults_settle(m, s),
                i <= keys@.len(),
                forall|k: u64| #[trigger] keys@.contains(k) <==> m.contains_key(k),
                forall|k: int|
                    0 <= k < i && type_default(m, #[trigger] keys@[k]) is Some ==> default_fits(
                        m,
                        s.optional_nullable,
                        keys@[k],
                        json_of(type_default(m, keys@[k])->0),
                    ),
            decreases keys@.len() - i,
        {
            let t = keys[i];
            proof {
                assert(keys@.contains(t));
            }
            match self.types.get(&t).unwrap().common() {
                Some(c) => match &c.default {
                    Some(d) => {
                        match check_default(&self.types, &self.settings, d, t) {
                            Err(e) => {
                                return Err(e);
                            },
                            Ok(()) => {},
                        }
                    },
                    None => {},
                },
                None => {},
            }
            i = i + 1;
        }
        proof {
            assert forall|t: u64| #[trigger] m.contains_key(t) && type_default(m, t) is Some implies default_fits(
                m,
                s.optional_nullable,
                t,
                json_of(type_default(m, t)->0),
            ) by {
                assert(keys@.contains(t));
                let k = choose|k: int| 0 <= k < keys@.len() && keys@[k] == t;
                assert(type_default(m, keys@[k]) is Some);
            }
        }
        Ok(())
    }

    /// Reject `Never` in any position that requires a value.
    ///
    /// `Never` can be neither serialized nor deserialized, so it says
    /// something only where the construct holding it can leave it out.
    /// Every type is checked here, so only the immediate type in each
    /// position needs to be.
    fn check_never_positions(&self) -> (r: Result<(), Error>)
        ensures
            r is Ok <==> never_free(self.types@),
            r matches Err(e) ==> never_report(self.types@, e),
    {
        proof {
            lemma_u64_key_order();
        }
        let ghost m = self.types@;
        let keys = sorted_keys(&self.types);
        let mut i: usize = 0;
        while i < keys.len()
            invariant
                m == self.types@,
                i <= keys@.len(),
                forall|k: u64| #[trigger] keys@.contains(k) <==> m.contains_key(k),
                forall|a: int, b: int| 0 <= a < b < keys@.len() ==> keys@[a] < keys@[b],
                forall|k: int| 0 <= k < i ==> never_spot(m, m[#[trigger] keys@[k]]) is None,
            decreases keys@.len() - i,
        {
            let t = keys[i];
            proof {
                assert(keys@.contains(t));
            }
            match never_position(&self.types, t, self.types.get(&t).unwrap()) {
                Some(e) => {
                    proof {
                        assert forall|u: u64| #[trigger] m.contains_key(u) && u < t implies never_spot(m, m[u]) is None by {
                            assert(keys@.contains(u));
                            let k = choose|k: int| 0 <= k < keys@.len() && keys@[k] == u;
                            if k > i {
                                assert(keys@[i as int] < keys@[k]);
                            }
                        }
                        assert(never_report(m, e));
                    }
                    return Err(e);
                },
                None => {},
            }
            i = i + 1;
        }
        proof {
            assert forall|t: u64| #[trigger] m.contains_key(t) implies never_spot(m, m[t]) is None by {
                assert(keys@.contains(t));
                let k = choose|k: int| 0 <= k < keys@.len() && keys@[k] == t;
                assert(never_spot(m, m[keys@[k]]) is None);
            }
        }
        Ok(())
    }

    /// Finalize the typespace.
    ///
    /// Verifies that every extra derive parses, that each container
    /// declares an obligation for every parameter it is rendered with,
    /// that every ID a type refers to names an inserted type (a dangling
    /// reference is [`Error::UnknownTypeId`]), that names are unique, and
    /// that no value position holds `Never`. Then breaks containment
    /// cycles by inserting `Box` types, verifies that no cycle runs
    /// through anonymous types only ([`Error::AnonymousCycle`]), and
    /// resolves traits: requirements that types cannot satisfy are all
    /// collected into [`Error::TraitConflicts`].
    ///
    /// `make_box_id` gives a fresh ID for each `Box` inserted to break a
    /// containment cycle; its argument is the ID of the type boxed. Pass
    /// [`no_cycles`] to assert that the graph has no containment cycles.
    pub fn finalize<F: Fn(&u64) -> u64>(self, make_box_id: F) -> (r: Result<Typespace, Error>)
        requires
            box_ids_fresh(make_box_id, self.types_of()),
            box_ids_callable(make_box_id, self.types_of()),
            shape_checks_pass(self.types_of(), self.settings_of()) ==> defaults_settle(self.types_of(), self.settings_of()),
        ensures
            !checks_pass(self.types_of(), self.settings_of()) ==> (r matches Err(e) && check_error(
                self.types_of(),
                self.settings_of(),
                e,
            )),
            checks_pass(self.types_of(), self.settings_of()) ==> exists|m1: Map<u64, Type>, m2: Map<u64, Type>|
                #[trigger] cycles_broken(make_box_id, self.types_of(), m1) && #[trigger] commons_started(m1, m2) && finalize_outcome(
                    m2,
                    self.settings_of(),
                    r,
                ),
    {
        proof {
            use_type_invariant(&self);
        }
        let ghost m = self.types@;
        let ghost s = self.settings;
        match self.check_derives() {
            Err(e) => {
                return Err(e);
            },
            Ok(()) => {},
        }
        match self.check_containers() {
            Err(e) => {
                return Err(e);
            },
            Ok(()) => {},
        }
        match self.check_container_answers() {
            Err(e) => {
                return Err(e);
            },
            Ok(()) => {},
        }
        match self.check_references() {
            Err(e) => {
                return Err(e);
            },
            Ok(()) => {},
        }
        match self.check_type_names() {
            Err(e) => {
                return Err(e);
            },
            Ok(()) => {},
        }
        match self.check_type_defaults() {
            Err(e) => {
                return Err(e);
            },
            Ok(()) => {},
        }
        match self.check_never_positions() {
            Err(e) => {
                return Err(e);
            },
            Ok(()) => {},
        }
        let TypespaceBuilder { mut types, settings } = self;
        break_cycles(&mut types, make_box_id);
        let ghost m1 = types@;
        build_commons(&mut types);
        let ghost m2 = types@;
        proof {
            lemma_same_shape(m1, m2);
        }
        match check_anonymous_cycles(&types) {
            Err(e) => {
                proof {
                    assert(finalize_outcome(m2, s, Err(e)));
                }
                return Err(e);
            },
            Ok(()) => {},
        }
        proof {
            assert(natives_ok(m2)) by {
                assert forall|t: u64| #[trigger] m2.contains_key(t) && m2[t] is Native implies m2[t]->Native_0.well_formed() by {
                    crate::resolve::lemma_shape_kept(m2[t], m1[t]);
                    assert(m2[t] == m1[t]);
                    if m.contains_key(t) {
                        assert(crate::cycles::rewired(m, m1, t));
                        assert(m[t].spec_valid());
                    } else {
                        assert(crate::cycles::boxes(m, m1).contains(t));
                    }
                }
            }
        }
        let result = resolve_traits(&mut types, &settings);
        match result {
            Err(e) => {
                proof {
                    assert(finalize_outcome(m2, s, Err(e)));
                }
                Err(e)
            },
            Ok(()) => {
                let ghost mf = types@;
                proof {
                    let mid = choose|mid: Map<u64, Type>| required_resolved(m2, s, mid) && #[trigger] desired_resolved(mid, s, mf);
                    assert forall|t: u64| #[trigger] mf.contains_key(t) implies mf[t].agrees_except_computed(m2[t]) by {
                        assert(mf[t].agrees_except_built(mid[t]));
                        assert(mid[t].agrees_except_built(m2[t]));
                    }
                    lemma_same_shape(m2, mf);
                    assert forall|t: u64| #[trigger] mf.contains_key(t) && mf[t].spec_is_named() implies mf[t].common_of()->0.name is Some by {
                        assert(mf[t].agrees_except_computed(m1[t])) by {
                            assert(mf[t].agrees_except_built(mid[t]));
                            assert(mid[t].agrees_except_built(m2[t]));
                            assert(m2[t].agrees_except_computed(m1[t]));
                        }
                        crate::resolve::lemma_shape_kept(mf[t], m1[t]);
                        assert(mf[t].without_computed() == m1[t].without_computed());
                        if m.contains_key(t) {
                            assert(crate::cycles::rewired(m, m1, t));
                            assert(m1[t].agrees_except_ids(m[t]));
                            assert(m[t].spec_valid());
                            match (mf[t], m1[t], m[t]) {
                                (Type::Enum(a), Type::Enum(b), Type::Enum(c)) => {},
                                (Type::Struct(a), Type::Struct(b), Type::Struct(c)) => {},
                                (Type::UnitStruct(a), Type::UnitStruct(b), Type::UnitStruct(c)) => {},
                                (Type::TupleStruct(a), Type::TupleStruct(b), Type::TupleStruct(c)) => {},
                                (Type::NewtypeStruct(a), Type::NewtypeStruct(b), Type::NewtypeStruct(c)) => {},
                                (Type::TypeAlias(a), Type::TypeAlias(b), Type::TypeAlias(c)) => {},
                                _ => {},
                            }
                        } else {
                            assert(crate::cycles::boxes(m, m1).contains(t));
                            assert(m1[t] is Box);
                        }
                    }
                }
                proof {
                    let mid = choose|mid: Map<u64, Type>| required_resolved(m2, s, mid) && #[trigger] desired_resolved(mid, s, mf);
                    assert forall|t: u64| #[trigger] mf.contains_key(t) && mf[t].spec_is_named() implies mf[t].built_of() is Some by {
                        assert(mf[t].agrees_except_built(mid[t]));
                        assert(mid.contains_key(t));
                        assert(mid[t].spec_is_named());
                    }
                }
                let ts = Typespace { types, settings };
                proof {
                    assert(ts.types_of() == mf);
                    assert(ts.settings_of() == s);
                    let mid = choose|mid: Map<u64, Type>| required_resolved(m2, s, mid) && #[trigger] desired_resolved(mid, s, mf);
                    assert(finalize_outcome(m2, s, Ok(ts)));
                }
                Ok(ts)
            },
        }
    }
}

impl Default for TypespaceBuilder {
    /// A builder with typical settings.
    fn default() -> (b: Self)
        ensures
            b.types_of() == Map::<u64, Type>::empty(),
            crate::settings::preset_base(b.settings_of()),
            b.settings_of().required_traits@ == crate::settings::typical_required(),
            b.settings_of().desired_traits@ == Set::<crate::traits::TypespaceTrait>::empty(),
            b.settings_of().struct_builder,
    {
        TypespaceBuilder::new(Settings::typical())
    }
}

} // verus!
