//! Checking a type's default value: whether a JSON value can construct a
//! value of the type, the way serde would read it.
//!
//! The walk descends the value and the type together. Where it descends
//! the type without narrowing the value (through a newtype, an alias, an
//! option, a box, or an untagged item variant), or expands it (a
//! property's own default value), it guards against revisiting a type
//! with the same value: that would recur forever, and it is reported as a
//! recursive default instead.

use std::collections::BTreeMap;

use vstd::prelude::*;

use vstd::string::{StrSliceExecFns, StringExecFns};

use crate::build::enums::{variant_wire_name, Enum, EnumTagType, EnumVariant, VariantDetails};
use crate::build::structs::{spec_wire_name, StructProperty, StructPropertyState, TupleStruct};
use crate::build::Type;
use crate::error::Error;
use crate::finalize::{decimal, decimal_text, digit_text};
use crate::graph::lemma_u64_key_order;
use crate::syntax::{quoted, spec_quoted};
use crate::json_text::json_value_text;
use crate::json::{arr_of, json_equal, json_of, obj_of, str_equal, Json, JsonMember, JsonNum, JsonNumber, JsonValue};
use crate::settings::{OptionalNullable, Settings};

verus! {

/// The first pair of `ms` from index `k` on whose key is `key`.
pub open spec fn first_key(ms: Seq<(Seq<char>, Json)>, key: Seq<char>, k: int) -> Option<int>
    decreases ms.len() - k,
{
    if k < 0 || k >= ms.len() {
        None
    } else if ms[k].0 == key {
        Some(k)
    } else {
        first_key(ms, key, k + 1)
    }
}

/// The value of the first member of an object with key `key`.
pub open spec fn obj_get(ms: Seq<(Seq<char>, Json)>, key: Seq<char>) -> Option<Json> {
    match first_key(ms, key, 0) {
        Some(i) => Some(ms[i].1),
        None => None,
    }
}

/// Some property of `props` serializes under `key`.
pub open spec fn named_key(props: Seq<StructProperty>, key: Seq<char>) -> bool {
    exists|i: int| 0 <= i < props.len() && spec_wire_name(#[trigger] props[i]) == Some(key)
}

/// The members of an object that no property of `props` names: what a
/// flattened property reads.
pub open spec fn strip_named(ms: Seq<(Seq<char>, Json)>, props: Seq<StructProperty>) -> Seq<(Seq<char>, Json)> {
    ms.filter(|e: (Seq<char>, Json)| !named_key(props, e.0))
}

/// The members of an object other than `key`.
pub open spec fn strip_key(ms: Seq<(Seq<char>, Json)>, key: Seq<char>) -> Seq<(Seq<char>, Json)> {
    ms.filter(|e: (Seq<char>, Json)| e.0 != key)
}

/// Some member of an object is named by no property of `props`.
pub open spec fn has_extra(ms: Seq<(Seq<char>, Json)>, props: Seq<StructProperty>) -> bool {
    exists|i: int| 0 <= i < ms.len() && !named_key(props, #[trigger] ms[i].0)
}

/// Some value occurs twice among `items`.
pub open spec fn has_dup(items: Seq<Json>) -> bool {
    exists|i: int, j: int| 0 <= i < j < items.len() && #[trigger] items[i] == #[trigger] items[j]
}

/// The first variant of `vs` from index `k` on that serializes under
/// `name`.
pub open spec fn first_variant(vs: Seq<EnumVariant>, name: Seq<char>, k: int) -> Option<int>
    decreases vs.len() - k,
{
    if k < 0 || k >= vs.len() {
        None
    } else if variant_wire_name(vs[k]) == name {
        Some(k)
    } else {
        first_variant(vs, name, k + 1)
    }
}

/// What checking value `v` against type `id` gives, with `st` the types
/// and values the walk has entered without narrowing the value: `Some`
/// of whether the value fits, or `None` when `fuel` runs out (or the walk
/// would stop on a type it cannot find).
pub open spec fn walk(m: Map<u64, Type>, on: OptionalNullable, st: Seq<(u64, Json)>, id: u64, v: Json, fuel: nat) -> Option<bool>
    decreases fuel, 0nat, 0nat,
{
    if fuel == 0 || !m.contains_key(id) {
        None
    } else {
        let f = (fuel - 1) as nat;
        match m[id] {
            Type::Enum(e) => walk_enum(m, on, st, e, v, f),
            Type::Struct(x) => walk_props(m, on, st, x.properties@, x.deny_unknown_fields, v, f),
            Type::UnitStruct(u) => Some(v == crate::json::json_of(u.repr)),
            Type::TupleStruct(t) => walk_tuple_struct(m, on, st, t, v, f),
            Type::NewtypeStruct(n) => guard(m, on, st, n.inner, v, f),
            Type::TypeAlias(a) => guard(m, on, st, a.target, v, f),
            Type::Native(_) => Some(true),
            Type::Option(e) => if v is Null {
                Some(true)
            } else {
                guard(m, on, st, e, v, f)
            },
            Type::Box(e) => guard(m, on, st, e, v, f),
            Type::Vec(e) => match v {
                Json::Arr(items) => walk_all(m, on, st, e, items, 0, f),
                _ => Some(false),
            },
            Type::MapOf(k, w) => match v {
                Json::Obj(ms) => walk_entries(m, on, st, k, w, ms, 0, f),
                _ => Some(false),
            },
            Type::SetOf(e) => match v {
                Json::Arr(items) => if has_dup(items) {
                    Some(false)
                } else {
                    walk_all(m, on, st, e, items, 0, f)
                },
                _ => Some(false),
            },
            Type::Array(e, len) => match v {
                Json::Arr(items) => if items.len() != len {
                    Some(false)
                } else {
                    walk_all(m, on, st, e, items, 0, f)
                },
                _ => Some(false),
            },
            Type::Tuple(ids) => walk_items(m, on, st, ids@, v, f),
            Type::Unit => Some(v is Null),
            Type::Boolean => Some(v is Bool),
            Type::Integer(_) | Type::Float(_) => Some(v is Number),
            Type::String => Some(v is Text),
            Type::JsonValue => Some(true),
            Type::Never => Some(false),
        }
    }
}

/// Checking `v` against `id` where the walk does not narrow the value: a
/// revisit fails as recursive, and otherwise the pair is entered.
pub open spec fn guard(m: Map<u64, Type>, on: OptionalNullable, st: Seq<(u64, Json)>, id: u64, v: Json, fuel: nat) -> Option<bool>
    decreases fuel, 1nat, 0nat,
{
    if st.contains((id, v)) {
        Some(false)
    } else {
        walk(m, on, st.push((id, v)), id, v, fuel)
    }
}

/// Checking each of `items` from index `k` on against `e`, stopping at
/// the first that does not fit.
pub open spec fn walk_all(m: Map<u64, Type>, on: OptionalNullable, st: Seq<(u64, Json)>, e: u64, items: Seq<Json>, k: int, fuel: nat) -> Option<bool>
    decreases fuel, 2nat, items.len() - k,
{
    if k < 0 || k >= items.len() {
        Some(true)
    } else {
        match walk(m, on, st, e, items[k], fuel) {
            Some(true) => walk_all(m, on, st, e, items, k + 1, fuel),
            r => r,
        }
    }
}

/// Checking each value of `vals` from index `k` on against the type at
/// the same index of `ids`.
pub open spec fn walk_pairs(m: Map<u64, Type>, on: OptionalNullable, st: Seq<(u64, Json)>, ids: Seq<u64>, vals: Seq<Json>, k: int, fuel: nat) -> Option<bool>
    decreases fuel, 2nat, ids.len() - k,
{
    if k < 0 || k >= ids.len() {
        Some(true)
    } else {
        match walk(m, on, st, ids[k], vals[k], fuel) {
            Some(true) => walk_pairs(m, on, st, ids, vals, k + 1, fuel),
            r => r,
        }
    }
}

/// Checking each member of an object from index `k` on against a map's
/// key type (the key as a JSON string) and value type.
pub open spec fn walk_entries(
    m: Map<u64, Type>,
    on: OptionalNullable,
    st: Seq<(u64, Json)>,
    key: u64,
    value: u64,
    ms: Seq<(Seq<char>, Json)>,
    k: int,
    fuel: nat,
) -> Option<bool>
    decreases fuel, 2nat, ms.len() - k,
{
    if k < 0 || k >= ms.len() {
        Some(true)
    } else {
        match walk(m, on, st, key, Json::Text(ms[k].0), fuel) {
            Some(true) => match walk(m, on, st, value, ms[k].1, fuel) {
                Some(true) => walk_entries(m, on, st, key, value, ms, k + 1, fuel),
                r => r,
            },
            r => r,
        }
    }
}

/// Checking one property against an object: a named property against its
/// member (or, missing, against its state), a flattened one against the
/// members no property names.
pub open spec fn prop_step(
    m: Map<u64, Type>,
    on: OptionalNullable,
    st: Seq<(u64, Json)>,
    props: Seq<StructProperty>,
    deny: bool,
    ms: Seq<(Seq<char>, Json)>,
    k: int,
    fuel: nat,
) -> Option<bool>
    decreases fuel, 2nat, 0nat,
{
    let p = props[k];
    match spec_wire_name(p) {
        Some(name) => match obj_get(ms, name) {
            None => match p.state {
                StructPropertyState::Required => Some(false),
                StructPropertyState::DefaultValue(d) => guard(m, on, st, p.type_id, crate::json::json_of(d), fuel),
                _ => Some(true),
            },
            Some(pv) => match p.state {
                StructPropertyState::Optional => if !m.contains_key(p.type_id) {
                    None
                } else if m[p.type_id] is Option && on is CustomType && pv is Null {
                    Some(true)
                } else {
                    walk(m, on, st, p.type_id, pv, fuel)
                },
                _ => walk(m, on, st, p.type_id, pv, fuel),
            },
        },
        None => if deny {
            None
        } else {
            let rest = Json::Obj(strip_named(ms, props));
            match p.state {
                StructPropertyState::Optional => match walk(m, on, st, p.type_id, rest, fuel) {
                    Some(_) => Some(true),
                    None => None,
                },
                _ => walk(m, on, st, p.type_id, rest, fuel),
            }
        },
    }
}

/// Checking each property from index `k` on, stopping at the first that
/// fails.
pub open spec fn walk_prop_list(
    m: Map<u64, Type>,
    on: OptionalNullable,
    st: Seq<(u64, Json)>,
    props: Seq<StructProperty>,
    deny: bool,
    ms: Seq<(Seq<char>, Json)>,
    k: int,
    fuel: nat,
) -> Option<bool>
    decreases fuel, 3nat, props.len() - k,
{
    if k < 0 || k >= props.len() {
        Some(true)
    } else {
        match prop_step(m, on, st, props, deny, ms, k, fuel) {
            Some(true) => walk_prop_list(m, on, st, props, deny, ms, k + 1, fuel),
            r => r,
        }
    }
}

/// Checking a struct-shaped value: an object whose members fit the
/// properties and, when unknown fields are denied, has no member no
/// property names.
pub open spec fn walk_props(
    m: Map<u64, Type>,
    on: OptionalNullable,
    st: Seq<(u64, Json)>,
    props: Seq<StructProperty>,
    deny: bool,
    v: Json,
    fuel: nat,
) -> Option<bool>
    decreases fuel, 4nat, 0nat,
{
    match v {
        Json::Obj(ms) => match walk_prop_list(m, on, st, props, deny, ms, 0, fuel) {
            Some(true) => Some(!(deny && has_extra(ms, props))),
            r => r,
        },
        _ => Some(false),
    }
}

/// Checking a tuple-shaped value: an array as long as `ids`, each item
/// fitting the type at its index.
pub open spec fn walk_items(m: Map<u64, Type>, on: OptionalNullable, st: Seq<(u64, Json)>, ids: Seq<u64>, v: Json, fuel: nat) -> Option<bool>
    decreases fuel, 3nat, 0nat,
{
    match v {
        Json::Arr(items) => if items.len() != ids.len() {
            Some(false)
        } else {
            walk_pairs(m, on, st, ids, items, 0, fuel)
        },
        _ => Some(false),
    }
}

/// Checking a variant's payload `v` against the variant's shape.
pub open spec fn walk_payload(
    m: Map<u64, Type>,
    on: OptionalNullable,
    st: Seq<(u64, Json)>,
    d: VariantDetails,
    deny: bool,
    v: Json,
    fuel: nat,
) -> Option<bool>
    decreases fuel, 5nat, 0nat,
{
    match d {
        VariantDetails::Unit => Some(false),
        VariantDetails::Item(id) => walk(m, on, st, id, v, fuel),
        VariantDetails::Tuple(ids) => walk_items(m, on, st, ids@, v, fuel),
        VariantDetails::Struct(props) => walk_props(m, on, st, props@, deny, v, fuel),
    }
}

/// An externally tagged value: a unit variant's name as a string, or a
/// one-member object from a variant's name to its payload.
pub open spec fn walk_external(m: Map<u64, Type>, on: OptionalNullable, st: Seq<(u64, Json)>, e: Enum, v: Json, fuel: nat) -> Option<bool>
    decreases fuel, 6nat, 0nat,
{
    match v {
        Json::Text(name) => match first_variant(e.variants@, name, 0) {
            Some(i) => Some(e.variants@[i].details is Unit),
            None => Some(false),
        },
        Json::Obj(ms) => if ms.len() != 1 {
            Some(false)
        } else {
            match first_variant(e.variants@, ms[0].0, 0) {
                Some(i) => walk_payload(m, on, st, e.variants@[i].details, e.deny_unknown_fields, ms[0].1, fuel),
                None => Some(false),
            }
        },
        _ => Some(false),
    }
}

/// An internally tagged value: an object whose `tag` member names the
/// variant, the other members being its payload.
pub open spec fn walk_internal(
    m: Map<u64, Type>,
    on: OptionalNullable,
    st: Seq<(u64, Json)>,
    e: Enum,
    tag: Seq<char>,
    v: Json,
    fuel: nat,
) -> Option<bool>
    decreases fuel, 6nat, 0nat,
{
    match v {
        Json::Obj(ms) => match obj_get(ms, tag) {
            Some(Json::Text(name)) => match first_variant(e.variants@, name, 0) {
                Some(i) => match e.variants@[i].details {
                    VariantDetails::Unit => Some(true),
                    VariantDetails::Tuple(_) => Some(false),
                    d => walk_payload(m, on, st, d, e.deny_unknown_fields, Json::Obj(strip_key(ms, tag)), fuel),
                },
                None => Some(false),
            },
            _ => Some(false),
        },
        _ => Some(false),
    }
}

/// An adjacently tagged value: an object with a `tag` member naming the
/// variant and, when the variant carries a payload, a `content` member.
pub open spec fn walk_adjacent(
    m: Map<u64, Type>,
    on: OptionalNullable,
    st: Seq<(u64, Json)>,
    e: Enum,
    tag: Seq<char>,
    content: Seq<char>,
    v: Json,
    fuel: nat,
) -> Option<bool>
    decreases fuel, 6nat, 0nat,
{
    match v {
        Json::Obj(ms) => match obj_get(ms, tag) {
            Some(Json::Text(name)) => {
                let c = obj_get(ms, content);
                if !((ms.len() == 1 && c is None) || (ms.len() == 2 && c is Some)) {
                    Some(false)
                } else {
                    match first_variant(e.variants@, name, 0) {
                        Some(i) => match (e.variants@[i].details, c) {
                            (VariantDetails::Unit, None) => Some(true),
                            (VariantDetails::Unit, Some(_)) => Some(false),
                            (_, None) => Some(false),
                            (d, Some(cv)) => walk_payload(m, on, st, d, e.deny_unknown_fields, cv, fuel),
                        },
                        None => Some(false),
                    }
                }
            },
            _ => Some(false),
        },
        _ => Some(false),
    }
}

/// An untagged value: the first variant from index `k` on whose shape it
/// fits; a variant that does not fit is passed over.
pub open spec fn walk_untagged(
    m: Map<u64, Type>,
    on: OptionalNullable,
    st: Seq<(u64, Json)>,
    vs: Seq<EnumVariant>,
    deny: bool,
    v: Json,
    k: int,
    fuel: nat,
) -> Option<bool>
    decreases fuel, 6nat, vs.len() - k,
{
    if k < 0 || k >= vs.len() {
        Some(false)
    } else {
        let attempt = match vs[k].details {
            VariantDetails::Unit => Some(v is Null),
            VariantDetails::Item(id) => guard(m, on, st, id, v, fuel),
            VariantDetails::Tuple(ids) => walk_items(m, on, st, ids@, v, fuel),
            VariantDetails::Struct(props) => walk_props(m, on, st, props@, deny, v, fuel),
        };
        match attempt {
            Some(true) => Some(true),
            Some(false) => walk_untagged(m, on, st, vs, deny, v, k + 1, fuel),
            None => None,
        }
    }
}

/// A tuple struct's value: an array with a value for each field (and,
/// with a rest type, whatever follows as one array value of it).
pub open spec fn walk_tuple_struct(m: Map<u64, Type>, on: OptionalNullable, st: Seq<(u64, Json)>, t: TupleStruct, v: Json, fuel: nat) -> Option<bool>
    decreases fuel, 6nat, 0nat,
{
    match v {
        Json::Arr(items) => {
            let n = t.fields@.len();
            let enough = match t.rest {
                Some(_) => items.len() >= n,
                None => items.len() == n,
            };
            if !enough {
                Some(false)
            } else {
                match walk_items(m, on, st, t.fields@, Json::Arr(items.take(n as int)), fuel) {
                    Some(true) => match t.rest {
                        Some(r) => walk(m, on, st, r, Json::Arr(items.skip(n as int)), fuel),
                        None => Some(true),
                    },
                    r => r,
                }
            }
        },
        _ => Some(false),
    }
}

/// An enum's value, read by its tagging.
pub open spec fn walk_enum(m: Map<u64, Type>, on: OptionalNullable, st: Seq<(u64, Json)>, e: Enum, v: Json, fuel: nat) -> Option<bool>
    decreases fuel, 7nat, 0nat,
{
    match e.tag_type {
        Some(EnumTagType::External) => walk_external(m, on, st, e, v, fuel),
        Some(EnumTagType::Internal { tag }) => walk_internal(m, on, st, e, tag@, v, fuel),
        Some(EnumTagType::Adjacent { tag, content }) => walk_adjacent(m, on, st, e, tag@, content@, v, fuel),
        Some(EnumTagType::Untagged) => walk_untagged(m, on, st, e.variants@, e.deny_unknown_fields, v, 0, fuel),
        None => None,
    }
}

/// The pairs of a walk's stack as mathematical values.
pub open spec fn stack_view(st: Seq<(u64, JsonValue)>) -> Seq<(u64, Json)> {
    Seq::new(st.len(), |i: int| (st[i].0, json_of(st[i].1)))
}

/// Whether the walk has already entered type `id` with `value`.
fn on_stack(stack: &Vec<(u64, JsonValue)>, id: u64, value: &JsonValue) -> (b: bool)
    ensures
        b == stack_view(stack@).contains((id, json_of(*value))),
{
    let ghost sv = stack_view(stack@);
    let ghost x = (id, json_of(*value));
    let mut i: usize = 0;
    while i < stack.len()
        invariant
            i <= stack@.len(),
            sv == stack_view(stack@),
            x == (id, json_of(*value)),
            forall|k: int| 0 <= k < i ==> sv[k] != x,
        decreases stack@.len() - i,
    {
        if stack[i].0 == id && json_equal(&stack[i].1, value) {
            proof {
                assert(sv[i as int] == x);
            }
            return true;
        }
        i = i + 1;
    }
    proof {
        if sv.contains(x) {
            let k = choose|k: int| 0 <= k < sv.len() && sv[k] == x;
            assert(sv[k] != x);
        }
    }
    false
}

/// The index of the first member of `ms` named `key`.
fn find_key(ms: &Vec<JsonMember>, key: &str) -> (r: Option<usize>)
    ensures
        r matches Some(i) ==> i < ms@.len() && first_key(obj_of(ms@), key@, 0) == Some(i as int),
        r is None ==> first_key(obj_of(ms@), key@, 0) is None,
{
    let ghost o = obj_of(ms@);
    let mut i: usize = 0;
    while i < ms.len()
        invariant
            i <= ms@.len(),
            o == obj_of(ms@),
            o.len() == ms@.len(),
            first_key(o, key@, 0) == first_key(o, key@, i as int),
        decreases ms@.len() - i,
    {
        assert(o[i as int].0 == ms@[i as int].key@);
        if str_equal(ms[i].key.as_str(), key) {
            return Some(i);
        }
        i = i + 1;
    }
    None
}

/// The index of the first variant of `vs` serialized under `name`.
fn find_variant(vs: &Vec<EnumVariant>, name: &str) -> (r: Option<usize>)
    ensures
        r matches Some(i) ==> i < vs@.len() && first_variant(vs@, name@, 0) == Some(i as int),
        r is None ==> first_variant(vs@, name@, 0) is None,
{
    let mut i: usize = 0;
    while i < vs.len()
        invariant
            i <= vs@.len(),
            first_variant(vs@, name@, 0) == first_variant(vs@, name@, i as int),
        decreases vs@.len() - i,
    {
        if str_equal(vs[i].json_name(), name) {
            return Some(i);
        }
        i = i + 1;
    }
    None
}

/// Whether some property of `props` serializes under `key`.
fn is_named(props: &Vec<StructProperty>, key: &str) -> (b: bool)
    ensures
        b == named_key(props@, key@),
{
    let mut i: usize = 0;
    while i < props.len()
        invariant
            i <= props@.len(),
            forall|k: int| 0 <= k < i ==> spec_wire_name(#[trigger] props@[k]) != Some(key@),
        decreases props@.len() - i,
    {
        match props[i].wire_name() {
            Some(w) => {
                if str_equal(w, key) {
                    return true;
                }
            },
            None => {},
        }
        i = i + 1;
    }
    false
}

/// A copy of a member.
fn copy_member(m: &JsonMember) -> (r: JsonMember)
    ensures
        r.key@ == m.key@,
        json_of(r.value) == json_of(m.value),
{
    JsonMember { key: m.key.clone(), value: m.value.duplicate() }
}

/// The members of `ms` that no property of `props` names.
fn strip_named_members(ms: &Vec<JsonMember>, props: &Vec<StructProperty>) -> (r: Vec<JsonMember>)
    ensures
        obj_of(r@) == strip_named(obj_of(ms@), props@),
{
    let ghost o = obj_of(ms@);
    let ghost pred = |e: (Seq<char>, Json)| !named_key(props@, e.0);
    let mut out: Vec<JsonMember> = Vec::new();
    let mut i: usize = 0;
    while i < ms.len()
        invariant
            i <= ms@.len(),
            o == obj_of(ms@),
            o.len() == ms@.len(),
            pred == (|e: (Seq<char>, Json)| !named_key(props@, e.0)),
            obj_of(out@) == o.take(i as int).filter(pred),
        decreases ms@.len() - i,
    {
        proof {
            reveal(Seq::filter);
            assert(o.take(i as int + 1).drop_last() =~= o.take(i as int));
            assert(o.take(i as int + 1).last() == o[i as int]);
        }
        if !is_named(props, ms[i].key.as_str()) {
            let m = copy_member(&ms[i]);
            let ghost before = out@;
            out.push(m);
            proof {
                assert(obj_of(out@) =~= obj_of(before).push(o[i as int]));
            }
        }
        i = i + 1;
    }
    proof {
        assert(o.take(ms@.len() as int) =~= o);
    }
    out
}

/// The members of `ms` other than `key`.
fn strip_key_members(ms: &Vec<JsonMember>, key: &str) -> (r: Vec<JsonMember>)
    ensures
        obj_of(r@) == strip_key(obj_of(ms@), key@),
{
    let ghost o = obj_of(ms@);
    let ghost pred = |e: (Seq<char>, Json)| e.0 != key@;
    let mut out: Vec<JsonMember> = Vec::new();
    let mut i: usize = 0;
    while i < ms.len()
        invariant
            i <= ms@.len(),
            o == obj_of(ms@),
            o.len() == ms@.len(),
            pred == (|e: (Seq<char>, Json)| e.0 != key@),
            obj_of(out@) == o.take(i as int).filter(pred),
        decreases ms@.len() - i,
    {
        proof {
            reveal(Seq::filter);
            assert(o.take(i as int + 1).drop_last() =~= o.take(i as int));
            assert(o.take(i as int + 1).last() == o[i as int]);
        }
        if !str_equal(ms[i].key.as_str(), key) {
            let m = copy_member(&ms[i]);
            let ghost before = out@;
            out.push(m);
            proof {
                assert(obj_of(out@) =~= obj_of(before).push(o[i as int]));
            }
        }
        i = i + 1;
    }
    proof {
        assert(o.take(ms@.len() as int) =~= o);
    }
    out
}

/// Whether some member of `ms` is named by no property of `props`.
fn has_extra_member(ms: &Vec<JsonMember>, props: &Vec<StructProperty>) -> (b: bool)
    ensures
        b == has_extra(obj_of(ms@), props@),
{
    let ghost o = obj_of(ms@);
    let mut i: usize = 0;
    while i < ms.len()
        invariant
            i <= ms@.len(),
            o == obj_of(ms@),
            o.len() == ms@.len(),
            forall|k: int| 0 <= k < i ==> named_key(props@, #[trigger] o[k].0),
        decreases ms@.len() - i,
    {
        if !is_named(props, ms[i].key.as_str()) {
            proof {
                assert(!named_key(props@, o[i as int].0));
            }
            return true;
        }
        i = i + 1;
    }
    false
}

/// The first position of `items` whose value occurs before it, if some
/// value occurs twice.
fn first_duplicate(items: &Vec<JsonValue>) -> (r: Option<usize>)
    ensures
        r is Some == has_dup(arr_of(items@)),
        r matches Some(j) ==> j < items@.len(),
{
    let ghost a = arr_of(items@);
    let mut j: usize = 0;
    while j < items.len()
        invariant
            j <= items@.len(),
            a == arr_of(items@),
            a.len() == items@.len(),
            forall|x: int, y: int| 0 <= x < y < j ==> a[x] != a[y],
        decreases items@.len() - j,
    {
        let mut i: usize = 0;
        while i < j
            invariant
                i <= j < items@.len(),
                a == arr_of(items@),
                a.len() == items@.len(),
                forall|x: int| 0 <= x < i ==> a[x] != a[j as int],
            decreases j - i,
        {
            if json_equal(&items[i], &items[j]) {
                proof {
                    assert(a[i as int] == a[j as int]);
                }
                return Some(j);
            }
            i = i + 1;
        }
        j = j + 1;
    }
    None
}

/// Copies of the items of `items` from `lo` up to `hi`.
fn copy_items(items: &Vec<JsonValue>, lo: usize, hi: usize) -> (r: Vec<JsonValue>)
    requires
        lo <= hi <= items@.len(),
    ensures
        arr_of(r@) == arr_of(items@).subrange(lo as int, hi as int),
{
    let ghost a = arr_of(items@);
    let mut out: Vec<JsonValue> = Vec::new();
    let mut i: usize = lo;
    while i < hi
        invariant
            lo <= i <= hi <= items@.len(),
            a == arr_of(items@),
            out@.len() == i - lo,
            forall|k: int| 0 <= k < out@.len() ==> json_of(#[trigger] out@[k]) == a[lo + k],
        decreases hi - i,
    {
        out.push(items[i].duplicate());
        i = i + 1;
    }
    proof {
        assert(arr_of(out@) =~= a.subrange(lo as int, hi as int));
    }
    out
}

/// An error for `value` at type `id`.
fn invalid(value: &JsonValue, id: u64, reason: String) -> (e: Error)
    ensures
        e is InvalidDefault,
{
    Error::InvalidDefault { value: value.duplicate(), id, reason }
}

/// `a`, then `b`, then `c`, as one string.
fn join3(a: &str, b: &str, c: &str) -> (r: String)
    ensures
        r@ == a@ + b@ + c@,
{
    a.to_owned().concat(b).concat(c)
}

/// Check `value` against type `id`: the walk of [`walk`].
fn default_impl(
    types: &BTreeMap<u64, Type>,
    settings: &Settings,
    stack: &mut Vec<(u64, JsonValue)>,
    id: u64,
    value: &JsonValue,
    Ghost(fuel): Ghost<nat>,
) -> (r: Result<(), Error>)
    requires
        walk(types@, settings.optional_nullable, stack_view(old(stack)@), id, json_of(*value), fuel) is Some,
    ensures
        final(stack)@ == old(stack)@,
        r is Ok <==> walk(types@, settings.optional_nullable, stack_view(old(stack)@), id, json_of(*value), fuel) == Some(true),
        r matches Err(e) ==> e is InvalidDefault,
    decreases fuel, 0nat, 0nat,
{
    proof {
        lemma_u64_key_order();
    }
    let ghost f: nat = (fuel - 1) as nat;
    let ty = types.get(&id).unwrap();
    match ty {
        Type::Enum(e) => default_impl_enum(types, settings, stack, id, e, value, Ghost(f)),
        Type::Struct(x) => default_impl_struct_props(
            types,
            settings,
            stack,
            id,
            &x.properties,
            x.deny_unknown_fields,
            value,
            Ghost(f),
        ),
        Type::UnitStruct(u) => {
            if json_equal(value, &u.repr) {
                Ok(())
            } else {
                Err(invalid(value, id, "unit struct default value must match its representation".to_owned()))
            }
        },
        Type::TupleStruct(t) => default_impl_tuple_struct(types, settings, stack, id, t, value, Ghost(f)),
        Type::NewtypeStruct(n) => expansion_guard(types, settings, stack, n.inner, value, Ghost(f)),
        Type::TypeAlias(a) => expansion_guard(types, settings, stack, a.target, value, Ghost(f)),
        Type::Native(_) => Ok(()),
        Type::Option(inner) => {
            if value.is_null() {
                Ok(())
            } else {
                expansion_guard(types, settings, stack, *inner, value, Ghost(f))
            }
        },
        Type::Box(inner) => expansion_guard(types, settings, stack, *inner, value, Ghost(f)),
        Type::Vec(elem) => match value {
            JsonValue::Array(items) => default_impl_all(types, settings, stack, *elem, items, Ghost(f)),
            _ => Err(invalid(value, id, "expected array".to_owned())),
        },
        Type::MapOf(key, val) => match value {
            JsonValue::Object(ms) => default_impl_entries(types, settings, stack, *key, *val, ms, Ghost(f)),
            _ => Err(invalid(value, id, "expected object".to_owned())),
        },
        Type::SetOf(elem) => match value {
            JsonValue::Array(items) => {
                if let Some(d) = first_duplicate(items) {
                    Err(invalid(value, id, join3("duplicate value in set default: ", json_value_text(&items[d]).as_str(), "")))
                } else {
                    default_impl_all(types, settings, stack, *elem, items, Ghost(f))
                }
            },
            _ => Err(invalid(value, id, "expected a JSON array".to_owned())),
        },
        Type::Array(elem, len) => match value {
            JsonValue::Array(items) => {
                if items.len() != *len {
                    Err(invalid(value, id, join3("expected an array of length ", decimal_text(*len).as_str(), "")))
                } else {
                    default_impl_all(types, settings, stack, *elem, items, Ghost(f))
                }
            },
            _ => Err(invalid(value, id, "expected a JSON array".to_owned())),
        },
        Type::Tuple(ids) => default_impl_tuple_items(types, settings, stack, id, ids, value, Ghost(f)),
        Type::Unit => {
            if value.is_null() {
                Ok(())
            } else {
                Err(invalid(value, id, "unit type default value must be null".to_owned()))
            }
        },
        Type::Boolean => match value {
            JsonValue::Bool(_) => Ok(()),
            _ => Err(invalid(value, id, "expected a boolean".to_owned())),
        },
        Type::Integer(_) => match value {
            JsonValue::Number(_) => Ok(()),
            _ => Err(invalid(value, id, "expected an integer".to_owned())),
        },
        Type::Float(_) => match value {
            JsonValue::Number(_) => Ok(()),
            _ => Err(invalid(value, id, "expected a number".to_owned())),
        },
        Type::String => match value {
            JsonValue::String(_) => Ok(()),
            _ => Err(invalid(value, id, "expected a string".to_owned())),
        },
        Type::JsonValue => Ok(()),
        Type::Never => Err(invalid(value, id, "a never type may not have a value".to_owned())),
    }
}

/// Check `value` against type `id` where the walk does not narrow the
/// value: entering the same pair twice would recur forever, and is
/// reported as a recursive default instead.
fn expansion_guard(
    types: &BTreeMap<u64, Type>,
    settings: &Settings,
    stack: &mut Vec<(u64, JsonValue)>,
    id: u64,
    value: &JsonValue,
    Ghost(fuel): Ghost<nat>,
) -> (r: Result<(), Error>)
    requires
        guard(types@, settings.optional_nullable, stack_view(old(stack)@), id, json_of(*value), fuel) is Some,
    ensures
        final(stack)@ == old(stack)@,
        r is Ok <==> guard(types@, settings.optional_nullable, stack_view(old(stack)@), id, json_of(*value), fuel) == Some(true),
        r matches Err(e) ==> e is InvalidDefault,
    decreases fuel, 1nat, 0nat,
{
    if on_stack(stack, id, value) {
        return Err(invalid(value, id, "property default value is recursive".to_owned()));
    }
    let ghost before = stack@;
    stack.push((id, value.duplicate()));
    proof {
        assert(stack_view(stack@) =~= stack_view(before).push((id, json_of(*value))));
    }
    let r = default_impl(types, settings, stack, id, value, Ghost(fuel));
    let _ = stack.pop();
    proof {
        assert(stack@ =~= before);
    }
    r
}

/// Check each of `items` against type `elem`, stopping at the first that
/// does not fit.
fn default_impl_all(
    types: &BTreeMap<u64, Type>,
    settings: &Settings,
    stack: &mut Vec<(u64, JsonValue)>,
    elem: u64,
    items: &Vec<JsonValue>,
    Ghost(fuel): Ghost<nat>,
) -> (r: Result<(), Error>)
    requires
        walk_all(types@, settings.optional_nullable, stack_view(old(stack)@), elem, arr_of(items@), 0, fuel) is Some,
    ensures
        final(stack)@ == old(stack)@,
        r is Ok <==> walk_all(types@, settings.optional_nullable, stack_view(old(stack)@), elem, arr_of(items@), 0, fuel) == Some(true),
        r matches Err(e) ==> e is InvalidDefault,
    decreases fuel, 2nat, 0nat,
{
    let ghost m = types@;
    let ghost st = stack_view(stack@);
    let ghost a = arr_of(items@);
    let mut i: usize = 0;
    while i < items.len()
        invariant
            i <= items@.len(),
            m == types@,
            a == arr_of(items@),
            a.len() == items@.len(),
            stack@ == old(stack)@,
            st == stack_view(old(stack)@),
            walk_all(m, settings.optional_nullable, st, elem, a, 0, fuel) == walk_all(m, settings.optional_nullable, st, elem, a, i as int, fuel),
            walk_all(m, settings.optional_nullable, st, elem, a, 0, fuel) is Some,
        decreases items@.len() - i,
    {
        assert(a[i as int] == json_of(items@[i as int]));
        match default_impl(types, settings, stack, elem, &items[i], Ghost(fuel)) {
            Err(e) => {
                return Err(e);
            },
            Ok(()) => {},
        }
        i = i + 1;
    }
    Ok(())
}

/// Check each member of an object against a map's key type (the key as a
/// JSON string) and value type.
fn default_impl_entries(
    types: &BTreeMap<u64, Type>,
    settings: &Settings,
    stack: &mut Vec<(u64, JsonValue)>,
    key: u64,
    val: u64,
    ms: &Vec<JsonMember>,
    Ghost(fuel): Ghost<nat>,
) -> (r: Result<(), Error>)
    requires
        walk_entries(types@, settings.optional_nullable, stack_view(old(stack)@), key, val, obj_of(ms@), 0, fuel) is Some,
    ensures
        final(stack)@ == old(stack)@,
        r is Ok <==> walk_entries(types@, settings.optional_nullable, stack_view(old(stack)@), key, val, obj_of(ms@), 0, fuel)
            == Some(true),
        r matches Err(e) ==> e is InvalidDefault,
    decreases fuel, 2nat, 0nat,
{
    let ghost m = types@;
    let ghost st = stack_view(stack@);
    let ghost o = obj_of(ms@);
    let mut i: usize = 0;
    while i < ms.len()
        invariant
            i <= ms@.len(),
            m == types@,
            o == obj_of(ms@),
            o.len() == ms@.len(),
            stack@ == old(stack)@,
            st == stack_view(old(stack)@),
            walk_entries(m, settings.optional_nullable, st, key, val, o, 0, fuel) == walk_entries(m, settings.optional_nullable, st, key, val, o, i as int, fuel),
            walk_entries(m, settings.optional_nullable, st, key, val, o, 0, fuel) is Some,
        decreases ms@.len() - i,
    {
        assert(o[i as int] == (ms@[i as int].key@, json_of(ms@[i as int].value)));
        let key_value = JsonValue::String(ms[i].key.clone());
        match default_impl(types, settings, stack, key, &key_value, Ghost(fuel)) {
            Err(e) => {
                return Err(e);
            },
            Ok(()) => {},
        }
        match default_impl(types, settings, stack, val, &ms[i].value, Ghost(fuel)) {
            Err(e) => {
                return Err(e);
            },
            Ok(()) => {},
        }
        i = i + 1;
    }
    Ok(())
}

/// Check a tuple-shaped value: an array as long as `ids`, each item
/// fitting the type at its index.
fn default_impl_tuple_items(
    types: &BTreeMap<u64, Type>,
    settings: &Settings,
    stack: &mut Vec<(u64, JsonValue)>,
    id: u64,
    ids: &Vec<u64>,
    value: &JsonValue,
    Ghost(fuel): Ghost<nat>,
) -> (r: Result<(), Error>)
    requires
        walk_items(types@, settings.optional_nullable, stack_view(old(stack)@), ids@, json_of(*value), fuel) is Some,
    ensures
        final(stack)@ == old(stack)@,
        r is Ok <==> walk_items(types@, settings.optional_nullable, stack_view(old(stack)@), ids@, json_of(*value), fuel) == Some(true),
        r matches Err(e) ==> e is InvalidDefault,
    decreases fuel, 3nat, 0nat,
{
    let items = match value {
        JsonValue::Array(items) => items,
        _ => {
            return Err(invalid(value, id, "expected a JSON array".to_owned()));
        },
    };
    if items.len() != ids.len() {
        return Err(invalid(value, id, join3("expected a tuple of length ", decimal_text(ids.len()).as_str(), "")));
    }
    let ghost m = types@;
    let ghost st = stack_view(stack@);
    let ghost a = arr_of(items@);
    assert(walk_items(m, settings.optional_nullable, st, ids@, json_of(*value), fuel) == walk_pairs(m, settings.optional_nullable, st, ids@, a, 0, fuel));
    let mut i: usize = 0;
    while i < ids.len()
        invariant
            walk_items(m, settings.optional_nullable, st, ids@, json_of(*value), fuel) == walk_pairs(m, settings.optional_nullable, st, ids@, a, 0, fuel),
            i <= ids@.len(),
            ids@.len() == items@.len(),
            m == types@,
            a == arr_of(items@),
            a.len() == items@.len(),
            stack@ == old(stack)@,
            st == stack_view(old(stack)@),
            walk_pairs(m, settings.optional_nullable, st, ids@, a, 0, fuel) == walk_pairs(m, settings.optional_nullable, st, ids@, a, i as int, fuel),
            walk_pairs(m, settings.optional_nullable, st, ids@, a, 0, fuel) is Some,
        decreases ids@.len() - i,
    {
        assert(a[i as int] == json_of(items@[i as int]));
        match default_impl(types, settings, stack, ids[i], &items[i], Ghost(fuel)) {
            Err(e) => {
                return Err(e);
            },
            Ok(()) => {},
        }
        i = i + 1;
    }
    Ok(())
}

/// Check one property of a struct-shaped value whose members are `ms`.
fn default_impl_property(
    types: &BTreeMap<u64, Type>,
    settings: &Settings,
    stack: &mut Vec<(u64, JsonValue)>,
    id: u64,
    props: &Vec<StructProperty>,
    deny: bool,
    value: &JsonValue,
    ms: &Vec<JsonMember>,
    k: usize,
    Ghost(fuel): Ghost<nat>,
) -> (r: Result<(), Error>)
    requires
        k < props@.len(),
        prop_step(types@, settings.optional_nullable, stack_view(old(stack)@), props@, deny, obj_of(ms@), k as int, fuel) is Some,
    ensures
        final(stack)@ == old(stack)@,
        r is Ok <==> prop_step(types@, settings.optional_nullable, stack_view(old(stack)@), props@, deny, obj_of(ms@), k as int, fuel)
            == Some(true),
        r matches Err(e) ==> e is InvalidDefault,
    decreases fuel, 2nat, 0nat,
{
    proof {
        lemma_u64_key_order();
    }
    let ghost o = obj_of(ms@);
    let p = &props[k];
    match p.wire_name() {
        Some(name) => match find_key(ms, name) {
            None => match &p.state {
                StructPropertyState::Required => Err(invalid(value, id, join3("property ", p.rust_name(), " is required"))),
                StructPropertyState::DefaultValue(d) => expansion_guard(types, settings, stack, p.type_id, d, Ghost(fuel)),
                _ => Ok(()),
            },
            Some(j) => {
                assert(o[j as int] == (ms@[j as int].key@, json_of(ms@[j as int].value)));
                let pv = &ms[j].value;
                match &p.state {
                    StructPropertyState::Optional => {
                        let is_option = match types.get(&p.type_id).unwrap() {
                            Type::Option(_) => true,
                            _ => false,
                        };
                        let custom = match &settings.optional_nullable {
                            OptionalNullable::CustomType(_) => true,
                            _ => false,
                        };
                        if is_option && custom && pv.is_null() {
                            Ok(())
                        } else {
                            default_impl(types, settings, stack, p.type_id, pv, Ghost(fuel))
                        }
                    },
                    _ => default_impl(types, settings, stack, p.type_id, pv, Ghost(fuel)),
                }
            },
        },
        None => {
            let rest = JsonValue::Object(strip_named_members(ms, props));
            match &p.state {
                StructPropertyState::Optional => {
                    let _ = default_impl(types, settings, stack, p.type_id, &rest, Ghost(fuel));
                    Ok(())
                },
                _ => default_impl(types, settings, stack, p.type_id, &rest, Ghost(fuel)),
            }
        },
    }
}

/// The keys of the members of `ms` that no property of `props` names, in
/// member order.
pub open spec fn extra_keys(ms: Seq<JsonMember>, props: Seq<StructProperty>) -> Seq<Seq<char>>
    decreases ms.len(),
{
    if ms.len() == 0 {
        Seq::empty()
    } else {
        let prev = extra_keys(ms.drop_last(), props);
        if named_key(props, ms.last().key@) {
            prev
        } else {
            prev.push(ms.last().key@)
        }
    }
}

/// `parts` separated by commas.
pub open spec fn comma_joined(parts: Seq<Seq<char>>) -> Seq<char>
    decreases parts.len(),
{
    if parts.len() == 0 {
        Seq::empty()
    } else if parts.len() == 1 {
        parts[0]
    } else {
        comma_joined(parts.drop_last()) + ","@ + parts.last()
    }
}

/// The names of the members of `ms` that no property of `props` names,
/// separated by commas.
fn extra_names(ms: &Vec<JsonMember>, props: &Vec<StructProperty>) -> (r: String)
    ensures
        r@ == comma_joined(extra_keys(ms@, props@)),
{
    let mut out = String::new();
    let mut first = true;
    let mut i: usize = 0;
    while i < ms.len()
        invariant
            i <= ms@.len(),
            out@ == comma_joined(extra_keys(ms@.take(i as int), props@)),
            first == (extra_keys(ms@.take(i as int), props@).len() == 0),
        decreases ms@.len() - i,
    {
        let ghost prev = extra_keys(ms@.take(i as int), props@);
        proof {
            assert(ms@.take(i + 1).drop_last() =~= ms@.take(i as int));
            assert(ms@.take(i + 1).last() == ms@[i as int]);
        }
        if !is_named(props, ms[i].key.as_str()) {
            let ghost next = prev.push(ms@[i as int].key@);
            proof {
                assert(next.drop_last() =~= prev);
                assert(next.last() == ms@[i as int].key@);
            }
            if !first {
                out.append(",");
            }
            out.append(ms[i].key.as_str());
            proof {
                if prev.len() == 0 {
                    assert(out@ =~= ms@[i as int].key@);
                }
            }
            first = false;
        }
        i = i + 1;
    }
    proof {
        assert(ms@.take(ms@.len() as int) =~= ms@);
    }
    out
}

/// Check a struct-shaped value: an object whose members fit `props` and,
/// when unknown fields are denied, has no member that no property names.
fn default_impl_struct_props(
    types: &BTreeMap<u64, Type>,
    settings: &Settings,
    stack: &mut Vec<(u64, JsonValue)>,
    id: u64,
    props: &Vec<StructProperty>,
    deny: bool,
    value: &JsonValue,
    Ghost(fuel): Ghost<nat>,
) -> (r: Result<(), Error>)
    requires
        walk_props(types@, settings.optional_nullable, stack_view(old(stack)@), props@, deny, json_of(*value), fuel) is Some,
    ensures
        final(stack)@ == old(stack)@,
        r is Ok <==> walk_props(types@, settings.optional_nullable, stack_view(old(stack)@), props@, deny, json_of(*value), fuel)
            == Some(true),
        r matches Err(e) ==> e is InvalidDefault,
    decreases fuel, 4nat, 0nat,
{
    let ms = match value {
        JsonValue::Object(ms) => ms,
        _ => {
            return Err(invalid(value, id, "expected JSON object".to_owned()));
        },
    };
    let ghost m = types@;
    let ghost st = stack_view(stack@);
    let ghost o = obj_of(ms@);
    let mut i: usize = 0;
    while i < props.len()
        invariant
            i <= props@.len(),
            m == types@,
            o == obj_of(ms@),
            *value == JsonValue::Object(*ms),
            stack@ == old(stack)@,
            st == stack_view(old(stack)@),
            walk_prop_list(m, settings.optional_nullable, st, props@, deny, o, 0, fuel) == walk_prop_list(
                m,
                settings.optional_nullable,
                st,
                props@,
                deny,
                o,
                i as int,
                fuel,
            ),
            walk_prop_list(m, settings.optional_nullable, st, props@, deny, o, 0, fuel) is Some,
        decreases props@.len() - i,
    {
        match default_impl_property(types, settings, stack, id, props, deny, value, ms, i, Ghost(fuel)) {
            Err(e) => {
                return Err(e);
            },
            Ok(()) => {},
        }
        i = i + 1;
    }
    if deny && has_extra_member(ms, props) {
        return Err(invalid(value, id, join3("extra properties in default: ", extra_names(ms, props).as_str(), "")));
    }
    Ok(())
}

/// Check an externally tagged value: a unit variant's name as a string,
/// or a one-member object from a variant's name to its payload.
fn default_impl_enum_external(
    types: &BTreeMap<u64, Type>,
    settings: &Settings,
    stack: &mut Vec<(u64, JsonValue)>,
    id: u64,
    e: &Enum,
    value: &JsonValue,
    Ghost(fuel): Ghost<nat>,
) -> (r: Result<(), Error>)
    requires
        walk_external(types@, settings.optional_nullable, stack_view(old(stack)@), *e, json_of(*value), fuel) is Some,
    ensures
        final(stack)@ == old(stack)@,
        r is Ok <==> walk_external(types@, settings.optional_nullable, stack_view(old(stack)@), *e, json_of(*value), fuel) == Some(true),
        r matches Err(e) ==> e is InvalidDefault,
    decreases fuel, 6nat, 0nat,
{
    proof {
        reveal_with_fuel(walk_payload, 2);
    }
    match value {
        JsonValue::String(name) => match find_variant(&e.variants, name.as_str()) {
            Some(i) => match &e.variants[i].details {
                VariantDetails::Unit => Ok(()),
                _ => Err(invalid(value, id, join3("non-unit variant ", name.as_str(), " without its payload"))),
            },
            None => Err(invalid(value, id, join3("variant ", name.as_str(), " not found in enum"))),
        },
        JsonValue::Object(ms) => {
            if ms.len() != 1 {
                return Err(invalid(value, id, "expected an object with exactly one entry".to_owned()));
            }
            assert(obj_of(ms@)[0] == (ms@[0].key@, json_of(ms@[0].value)));
            let name = ms[0].key.as_str();
            let payload = &ms[0].value;
            match find_variant(&e.variants, name) {
                None => Err(invalid(value, id, join3("no variant matching ", name, ""))),
                Some(i) => match &e.variants[i].details {
                    VariantDetails::Unit => Err(invalid(value, id, join3("unit variant ", name, " carries no payload"))),
                    VariantDetails::Item(item) => default_impl(types, settings, stack, *item, payload, Ghost(fuel)),
                    VariantDetails::Tuple(ids) => default_impl_tuple_items(types, settings, stack, id, ids, payload, Ghost(fuel)),
                    VariantDetails::Struct(props) => default_impl_struct_props(
                        types,
                        settings,
                        stack,
                        id,
                        props,
                        e.deny_unknown_fields,
                        payload,
                        Ghost(fuel),
                    ),
                },
            }
        },
        _ => Err(invalid(value, id, "expected a string or a single-entry object".to_owned())),
    }
}

/// Check an internally tagged value: an object whose `tag` member names
/// the variant, the other members being its payload.
fn default_impl_enum_internal(
    types: &BTreeMap<u64, Type>,
    settings: &Settings,
    stack: &mut Vec<(u64, JsonValue)>,
    id: u64,
    e: &Enum,
    tag: &str,
    value: &JsonValue,
    Ghost(fuel): Ghost<nat>,
) -> (r: Result<(), Error>)
    requires
        walk_internal(types@, settings.optional_nullable, stack_view(old(stack)@), *e, tag@, json_of(*value), fuel) is Some,
    ensures
        final(stack)@ == old(stack)@,
        r is Ok <==> walk_internal(types@, settings.optional_nullable, stack_view(old(stack)@), *e, tag@, json_of(*value), fuel)
            == Some(true),
        r matches Err(e) ==> e is InvalidDefault,
    decreases fuel, 6nat, 0nat,
{
    proof {
        reveal_with_fuel(walk_payload, 2);
    }
    let ms = match value {
        JsonValue::Object(ms) => ms,
        _ => {
            return Err(invalid(value, id, "expected a JSON object".to_owned()));
        },
    };
    let ghost o = obj_of(ms@);
    assert(json_of(*value) == Json::Obj(o));
    let tag_value = match find_key(ms, tag) {
        Some(j) => {
            assert(o[j as int] == (ms@[j as int].key@, json_of(ms@[j as int].value)));
            assert(obj_get(o, tag@) == Some(json_of(ms@[j as int].value)));
            match &ms[j].value {
                JsonValue::String(t) => t,
                _ => {
                    return Err(invalid(value, id, join3("expected a string tag property ", quoted(tag).as_str(), "")));
                },
            }
        },
        None => {
            assert(obj_get(o, tag@) is None);
            return Err(invalid(value, id, join3("expected a string tag property ", quoted(tag).as_str(), "")));
        },
    };
    assert(obj_get(o, tag@) == Some(Json::Text(tag_value@)));
    match find_variant(&e.variants, tag_value.as_str()) {
        None => Err(invalid(value, id, join3("variant ", tag_value.as_str(), " not found in enum"))),
        Some(i) => match &e.variants[i].details {
            VariantDetails::Unit => Ok(()),
            VariantDetails::Tuple(_) => Err(
                invalid(
                    value,
                    id,
                    join3("variant ", tag_value.as_str(), " carries a tuple payload, which internal tagging cannot represent"),
                ),
            ),
            VariantDetails::Item(item) => {
                let inner = JsonValue::Object(strip_key_members(ms, tag));
                assert(json_of(inner) == Json::Obj(strip_key(o, tag@)));
                default_impl(types, settings, stack, *item, &inner, Ghost(fuel))
            },
            VariantDetails::Struct(props) => {
                let inner = JsonValue::Object(strip_key_members(ms, tag));
                assert(json_of(inner) == Json::Obj(strip_key(o, tag@)));
                default_impl_struct_props(types, settings, stack, id, props, e.deny_unknown_fields, &inner, Ghost(fuel))
            },
        },
    }
}

/// Why an object does not have the shape of an adjacently tagged value
/// with tag member `tag` and content member `content`.
pub open spec fn adjacent_shape_text(tag: Seq<char>, content: Seq<char>) -> Seq<char> {
    "expected an object with a "@ + spec_quoted(tag) + " tag property and, if the variant "@ + "carries a payload, a "@
        + spec_quoted(content) + " content property"@ + ""@
}

/// Why an object does not have the shape of an adjacently tagged value.
fn adjacent_shape_reason(tag: &str, content: &str) -> (r: String)
    ensures
        r@ == adjacent_shape_text(tag@, content@),
{
    let first = join3("expected an object with a ", quoted(tag).as_str(), " tag property and, if the variant ");
    join3(first.as_str(), "carries a payload, a ", join3(quoted(content).as_str(), " content property", "").as_str())
}

/// Check an adjacently tagged value: an object with a `tag` member naming
/// the variant and, when the variant carries a payload, a `content`
/// member.
fn default_impl_enum_adjacent(
    types: &BTreeMap<u64, Type>,
    settings: &Settings,
    stack: &mut Vec<(u64, JsonValue)>,
    id: u64,
    e: &Enum,
    tag: &str,
    content: &str,
    value: &JsonValue,
    Ghost(fuel): Ghost<nat>,
) -> (r: Result<(), Error>)
    requires
        walk_adjacent(types@, settings.optional_nullable, stack_view(old(stack)@), *e, tag@, content@, json_of(*value), fuel) is Some,
    ensures
        final(stack)@ == old(stack)@,
        r is Ok <==> walk_adjacent(types@, settings.optional_nullable, stack_view(old(stack)@), *e, tag@, content@, json_of(*value), fuel)
            == Some(true),
        r matches Err(e) ==> e is InvalidDefault,
    decreases fuel, 6nat, 0nat,
{
    proof {
        reveal_with_fuel(walk_payload, 2);
    }
    let ms = match value {
        JsonValue::Object(ms) => ms,
        _ => {
            return Err(invalid(value, id, "expected a JSON object".to_owned()));
        },
    };
    let ghost o = obj_of(ms@);
    assert(json_of(*value) == Json::Obj(o));
    let tag_value: Option<&String> = match find_key(ms, tag) {
        Some(j) => {
            assert(o[j as int] == (ms@[j as int].key@, json_of(ms@[j as int].value)));
            assert(obj_get(o, tag@) == Some(json_of(ms@[j as int].value)));
            match &ms[j].value {
                JsonValue::String(t) => Some(t),
                _ => None,
            }
        },
        None => None,
    };
    assert(tag_value matches Some(t) ==> obj_get(o, tag@) == Some(Json::Text(t@)));
    assert(tag_value is None <==> !(obj_get(o, tag@) matches Some(Json::Text(_))));
    let content_index = find_key(ms, content);
    proof {
        if let Some(c) = content_index {
            assert(o[c as int] == (ms@[c as int].key@, json_of(ms@[c as int].value)));
            assert(obj_get(o, content@) == Some(json_of(ms@[c as int].value)));
        } else {
            assert(obj_get(o, content@) is None);
        }
    }
    let shaped = match content_index {
        Some(_) => ms.len() == 2,
        None => ms.len() == 1,
    };
    let tag_value = match tag_value {
        Some(t) => {
            if !shaped {
                return Err(invalid(value, id, adjacent_shape_reason(tag, content)));
            }
            t
        },
        None => {
            return Err(invalid(value, id, adjacent_shape_reason(tag, content)));
        },
    };
    match find_variant(&e.variants, tag_value.as_str()) {
        None => Err(invalid(value, id, join3("variant ", tag_value.as_str(), " not found in enum"))),
        Some(i) => match (&e.variants[i].details, content_index) {
            (VariantDetails::Unit, None) => Ok(()),
            (VariantDetails::Item(item), Some(c)) => default_impl(types, settings, stack, *item, &ms[c].value, Ghost(fuel)),
            (VariantDetails::Tuple(ids), Some(c)) => default_impl_tuple_items(
                types,
                settings,
                stack,
                id,
                ids,
                &ms[c].value,
                Ghost(fuel),
            ),
            (VariantDetails::Struct(props), Some(c)) => default_impl_struct_props(
                types,
                settings,
                stack,
                id,
                props,
                e.deny_unknown_fields,
                &ms[c].value,
                Ghost(fuel),
            ),
            _ => Err(invalid(value, id, join3("variant ", tag_value.as_str(), " does not accept this payload"))),
        },
    }
}

/// Check an untagged value: it must fit some variant, tried in order.
fn default_impl_enum_untagged(
    types: &BTreeMap<u64, Type>,
    settings: &Settings,
    stack: &mut Vec<(u64, JsonValue)>,
    id: u64,
    e: &Enum,
    value: &JsonValue,
    Ghost(fuel): Ghost<nat>,
) -> (r: Result<(), Error>)
    requires
        walk_untagged(types@, settings.optional_nullable, stack_view(old(stack)@), e.variants@, e.deny_unknown_fields, json_of(*value), 0, fuel)
            is Some,
    ensures
        final(stack)@ == old(stack)@,
        r is Ok <==> walk_untagged(
            types@,
            settings.optional_nullable,
            stack_view(old(stack)@),
            e.variants@,
            e.deny_unknown_fields,
            json_of(*value),
            0,
            fuel,
        ) == Some(true),
        r matches Err(e) ==> e is InvalidDefault,
    decreases fuel, 6nat, 0nat,
{
    let ghost m = types@;
    let ghost st = stack_view(stack@);
    let ghost v = json_of(*value);
    let ghost vs = e.variants@;
    let deny = e.deny_unknown_fields;
    let mut i: usize = 0;
    while i < e.variants.len()
        invariant
            i <= vs.len(),
            vs == e.variants@,
            deny == e.deny_unknown_fields,
            m == types@,
            v == json_of(*value),
            stack@ == old(stack)@,
            st == stack_view(old(stack)@),
            walk_untagged(m, settings.optional_nullable, st, vs, deny, v, 0, fuel) == walk_untagged(m, settings.optional_nullable, st, vs, deny, v, i as int, fuel),
            walk_untagged(m, settings.optional_nullable, st, vs, deny, v, 0, fuel) is Some,
        decreases vs.len() - i,
    {
        let fits = match &e.variants[i].details {
            VariantDetails::Unit => value.is_null(),
            VariantDetails::Item(item) => expansion_guard(types, settings, stack, *item, value, Ghost(fuel)).is_ok(),
            VariantDetails::Tuple(ids) => default_impl_tuple_items(types, settings, stack, id, ids, value, Ghost(fuel)).is_ok(),
            VariantDetails::Struct(props) => default_impl_struct_props(
                types,
                settings,
                stack,
                id,
                props,
                deny,
                value,
                Ghost(fuel),
            ).is_ok(),
        };
        if fits {
            return Ok(());
        }
        i = i + 1;
    }
    Err(invalid(value, id, "no variant of the untagged enum accepts this value".to_owned()))
}

/// Check a tuple struct's value: an array with a value for each field
/// (and, with a rest type, whatever follows as one array value of it).
fn default_impl_tuple_struct(
    types: &BTreeMap<u64, Type>,
    settings: &Settings,
    stack: &mut Vec<(u64, JsonValue)>,
    id: u64,
    t: &TupleStruct,
    value: &JsonValue,
    Ghost(fuel): Ghost<nat>,
) -> (r: Result<(), Error>)
    requires
        walk_tuple_struct(types@, settings.optional_nullable, stack_view(old(stack)@), *t, json_of(*value), fuel) is Some,
    ensures
        final(stack)@ == old(stack)@,
        r is Ok <==> walk_tuple_struct(types@, settings.optional_nullable, stack_view(old(stack)@), *t, json_of(*value), fuel) == Some(true),
        r matches Err(e) ==> e is InvalidDefault,
    decreases fuel, 6nat, 0nat,
{
    let items = match value {
        JsonValue::Array(items) => items,
        _ => {
            return Err(invalid(value, id, "expected a JSON array".to_owned()));
        },
    };
    let ghost a = arr_of(items@);
    let n = t.fields.len();
    let enough = match t.rest {
        Some(_) => items.len() >= n,
        None => items.len() == n,
    };
    if !enough {
        let count = decimal_text(n);
        let reason = match t.rest {
            Some(_) => join3("expected an array of at least length ", count.as_str(), ""),
            None => join3("expected an array of length ", count.as_str(), ""),
        };
        return Err(invalid(value, id, reason));
    }
    let head = JsonValue::Array(copy_items(items, 0, n));
    proof {
        assert(a.subrange(0, n as int) =~= a.take(n as int));
    }
    match default_impl_tuple_items(types, settings, stack, id, &t.fields, &head, Ghost(fuel)) {
        Err(e) => {
            return Err(e);
        },
        Ok(()) => {},
    }
    match t.rest {
        Some(rest) => {
            let tail = JsonValue::Array(copy_items(items, n, items.len()));
            proof {
                assert(a.subrange(n as int, a.len() as int) =~= a.skip(n as int));
            }
            default_impl(types, settings, stack, rest, &tail, Ghost(fuel))
        },
        None => Ok(()),
    }
}

/// Check an enum's value by its tagging.
fn default_impl_enum(
    types: &BTreeMap<u64, Type>,
    settings: &Settings,
    stack: &mut Vec<(u64, JsonValue)>,
    id: u64,
    e: &Enum,
    value: &JsonValue,
    Ghost(fuel): Ghost<nat>,
) -> (r: Result<(), Error>)
    requires
        walk_enum(types@, settings.optional_nullable, stack_view(old(stack)@), *e, json_of(*value), fuel) is Some,
    ensures
        final(stack)@ == old(stack)@,
        r is Ok <==> walk_enum(types@, settings.optional_nullable, stack_view(old(stack)@), *e, json_of(*value), fuel) == Some(true),
        r matches Err(e) ==> e is InvalidDefault,
    decreases fuel, 7nat, 0nat,
{
    match e.tag_type.as_ref().unwrap() {
        EnumTagType::External => default_impl_enum_external(types, settings, stack, id, e, value, Ghost(fuel)),
        EnumTagType::Internal { tag } => default_impl_enum_internal(
            types,
            settings,
            stack,
            id,
            e,
            tag.as_str(),
            value,
            Ghost(fuel),
        ),
        EnumTagType::Adjacent { tag, content } => default_impl_enum_adjacent(
            types,
            settings,
            stack,
            id,
            e,
            tag.as_str(),
            content.as_str(),
            value,
            Ghost(fuel),
        ),
        EnumTagType::Untagged => default_impl_enum_untagged(types, settings, stack, id, e, value, Ghost(fuel)),
    }
}

/// Some amount of fuel brings the walk of `v` against type `id`, from an
/// empty stack, to an answer: the check of a default value neither
/// recurs forever nor stops on a missing type or an inconsistent one.
pub open spec fn default_settles(m: Map<u64, Type>, on: OptionalNullable, id: u64, v: Json) -> bool {
    exists|f: nat| #[trigger] walk(m, on, Seq::empty(), id, v, f) is Some
}

/// Fuel enough for the walk of `v` against `id` to answer.
pub open spec fn settle_fuel(m: Map<u64, Type>, on: OptionalNullable, id: u64, v: Json) -> nat {
    choose|f: nat| #[trigger] walk(m, on, Seq::empty(), id, v, f) is Some
}

/// `v` is a valid default value for type `id`.
pub open spec fn default_fits(m: Map<u64, Type>, on: OptionalNullable, id: u64, v: Json) -> bool {
    walk(m, on, Seq::empty(), id, v, settle_fuel(m, on, id, v)) == Some(true)
}

/// Check that `value` can construct a value of type `id` the way serde
/// would read it.
pub fn check_default(types: &BTreeMap<u64, Type>, settings: &Settings, value: &JsonValue, id: u64) -> (r: Result<
    (),
    Error,
>)
    requires
        default_settles(types@, settings.optional_nullable, id, json_of(*value)),
    ensures
        r is Ok <==> default_fits(types@, settings.optional_nullable, id, json_of(*value)),
        r matches Err(e) ==> e is InvalidDefault,
{
    let ghost fuel = settle_fuel(types@, settings.optional_nullable, id, json_of(*value));
    let mut stack: Vec<(u64, JsonValue)> = Vec::new();
    proof {
        assert(stack_view(stack@) =~= Seq::<(u64, Json)>::empty());
    }
    default_impl(types, settings, &mut stack, id, value, Ghost(fuel))
}

/// The check of property `p`'s own default value, if it has one, comes
/// to an answer.
pub open spec fn property_default_settles(m: Map<u64, Type>, on: OptionalNullable, p: StructProperty) -> bool {
    p.state matches StructPropertyState::DefaultValue(d) ==> default_settles(m, on, p.type_id, json_of(d))
}

/// Property `p`'s own default value, if it has one, is valid for the
/// property's type.
pub open spec fn property_default_fits(m: Map<u64, Type>, on: OptionalNullable, p: StructProperty) -> bool {
    p.state matches StructPropertyState::DefaultValue(d) ==> default_fits(m, on, p.type_id, json_of(d))
}

impl StructProperty {
    /// Check the property's own default value, if it has one, against
    /// the property's type.
    pub fn check_defaults(&self, types: &BTreeMap<u64, Type>, settings: &Settings) -> (r: Result<(), Error>)
        requires
            property_default_settles(types@, settings.optional_nullable, *self),
        ensures
            r is Ok <==> property_default_fits(types@, settings.optional_nullable, *self),
            r matches Err(e) ==> e is InvalidDefault,
    {
        match &self.state {
            StructPropertyState::DefaultValue(value) => check_default(types, settings, value, self.type_id),
            _ => Ok(()),
        }
    }
}

/// Check the own default value of each of `props`, stopping at the first
/// that is not valid.
fn check_property_defaults(types: &BTreeMap<u64, Type>, settings: &Settings, props: &Vec<StructProperty>) -> (r: Result<
    (),
    Error,
>)
    requires
        forall|i: int| 0 <= i < props@.len() ==> property_default_settles(types@, settings.optional_nullable, #[trigger] props@[i]),
    ensures
        r is Ok <==> forall|i: int|
            0 <= i < props@.len() ==> property_default_fits(types@, settings.optional_nullable, #[trigger] props@[i]),
        r matches Err(e) ==> e is InvalidDefault,
{
    let mut i: usize = 0;
    while i < props.len()
        invariant
            i <= props@.len(),
            forall|k: int| 0 <= k < props@.len() ==> property_default_settles(types@, settings.optional_nullable, #[trigger] props@[k]),
            forall|k: int| 0 <= k < i ==> property_default_fits(types@, settings.optional_nullable, #[trigger] props@[k]),
        decreases props@.len() - i,
    {
        match props[i].check_defaults(types, settings) {
            Err(e) => {
                return Err(e);
            },
            Ok(()) => {},
        }
        i = i + 1;
    }
    Ok(())
}

impl crate::build::structs::Struct {
    /// Check the own default value of each property.
    pub fn check_field_defaults(&self, types: &BTreeMap<u64, Type>, settings: &Settings) -> (r: Result<(), Error>)
        requires
            forall|i: int|
                0 <= i < self.properties@.len() ==> property_default_settles(
                    types@,
                    settings.optional_nullable,
                    #[trigger] self.properties@[i],
                ),
        ensures
            r is Ok <==> forall|i: int|
                0 <= i < self.properties@.len() ==> property_default_fits(
                    types@,
                    settings.optional_nullable,
                    #[trigger] self.properties@[i],
                ),
            r matches Err(e) ==> e is InvalidDefault,
    {
        check_property_defaults(types, settings, &self.properties)
    }
}

/// The properties of a struct-shaped variant; none for another variant.
pub open spec fn variant_properties(v: EnumVariant) -> Seq<StructProperty> {
    match v.details {
        VariantDetails::Struct(props) => props@,
        _ => Seq::empty(),
    }
}

impl Enum {
    /// Check the own default value of each property of each struct-shaped
    /// variant.
    pub fn check_field_defaults(&self, types: &BTreeMap<u64, Type>, settings: &Settings) -> (r: Result<(), Error>)
        requires
            forall|j: int, i: int|
                0 <= j < self.variants@.len() && 0 <= i < variant_properties(self.variants@[j]).len()
                    ==> property_default_settles(
                    types@,
                    settings.optional_nullable,
                    #[trigger] variant_properties(self.variants@[j])[i],
                ),
        ensures
            r is Ok <==> forall|j: int, i: int|
                0 <= j < self.variants@.len() && 0 <= i < variant_properties(self.variants@[j]).len()
                    ==> property_default_fits(
                    types@,
                    settings.optional_nullable,
                    #[trigger] variant_properties(self.variants@[j])[i],
                ),
            r matches Err(e) ==> e is InvalidDefault,
    {
        let ghost on = settings.optional_nullable;
        let mut j: usize = 0;
        while j < self.variants.len()
            invariant
                j <= self.variants@.len(),
                on == settings.optional_nullable,
                forall|jj: int, i: int|
                    0 <= jj < self.variants@.len() && 0 <= i < variant_properties(self.variants@[jj]).len()
                        ==> property_default_settles(types@, on, #[trigger] variant_properties(self.variants@[jj])[i]),
                forall|jj: int, i: int|
                    0 <= jj < j && 0 <= i < variant_properties(self.variants@[jj]).len() ==> property_default_fits(
                        types@,
                        on,
                        #[trigger] variant_properties(self.variants@[jj])[i],
                    ),
            decreases self.variants@.len() - j,
        {
            match &self.variants[j].details {
                VariantDetails::Struct(props) => {
                    assert(props@ == variant_properties(self.variants@[j as int]));
                    match check_property_defaults(types, settings, props) {
                        Err(e) => {
                            proof {
                                let i = choose|i: int| 0 <= i < props@.len() && !property_default_fits(types@, on, #[trigger] props@[i]);
                                assert(!property_default_fits(types@, on, variant_properties(self.variants@[j as int])[i]));
                            }
                            return Err(e);
                        },
                        Ok(()) => {},
                    }
                },
                _ => {},
            }
            j = j + 1;
        }
        Ok(())
    }
}

/// Every item a list walk accepts is accepted on its own.
proof fn lemma_walk_all_each(
    m: Map<u64, Type>,
    on: OptionalNullable,
    st: Seq<(u64, Json)>,
    e: u64,
    items: Seq<Json>,
    k: int,
    f: nat,
    i: int,
)
    requires
        walk_all(m, on, st, e, items, k, f) == Some(true),
        0 <= k <= i < items.len(),
    ensures
        walk(m, on, st, e, items[i], f) == Some(true),
    decreases i - k,
{
    if k < i {
        lemma_walk_all_each(m, on, st, e, items, k + 1, f, i);
    }
}

/// A list walk that answers, over items each accepted whenever its walk
/// answers, accepts.
proof fn lemma_walk_all_true(m: Map<u64, Type>, on: OptionalNullable, st: Seq<(u64, Json)>, e: u64, items: Seq<Json>, k: int, f: nat)
    requires
        walk_all(m, on, st, e, items, k, f) is Some,
        0 <= k,
        forall|i: int| k <= i < items.len() && (#[trigger] walk(m, on, st, e, items[i], f)) is Some ==> walk(m, on, st, e, items[i], f) == Some(true),
    ensures
        walk_all(m, on, st, e, items, k, f) == Some(true),
    decreases items.len() - k,
{
    if k < items.len() {
        assert(walk(m, on, st, e, items[k], f) is Some);
        lemma_walk_all_true(m, on, st, e, items, k + 1, f);
    }
}

/// Any fuel at which the walk of a default answers gives the answer the
/// default's fit is.
proof fn lemma_fits_at(m: Map<u64, Type>, on: OptionalNullable, id: u64, v: Json, f: nat)
    requires
        walk(m, on, Seq::empty(), id, v, f) is Some,
    ensures
        default_settles(m, on, id, v),
        default_fits(m, on, id, v) == (walk(m, on, Seq::empty(), id, v, f) == Some(true)),
{
    assert(default_settles(m, on, id, v));
    let c = settle_fuel(m, on, id, v);
    if c <= f {
        lemma_walk_fuel(m, on, Seq::empty(), id, v, c, f);
    } else {
        lemma_walk_fuel(m, on, Seq::empty(), id, v, f, c);
    }
}

/// The type of the items of a set, vec or array type.
pub open spec fn item_type(t: Type) -> u64 {
    match t {
        Type::SetOf(e) => e,
        Type::Vec(e) => e,
        Type::Array(e, _) => e,
        _ => 0,
    }
}

/// A JSON array is a valid default of a set, vec or array type exactly
/// when every item is a valid default of the item type, and, for a set,
/// no item repeats, and, for an array, the number of items is its length.
pub proof fn law_sequence_default(m: Map<u64, Type>, on: OptionalNullable, id: u64, items: Seq<Json>)
    requires
        m.contains_key(id),
        m[id] is SetOf || m[id] is Vec || m[id] is Array,
        default_settles(m, on, id, Json::Arr(items)),
    ensures
        default_fits(m, on, id, Json::Arr(items)) <==> {
            &&& forall|i: int| 0 <= i < items.len() ==> default_fits(m, on, item_type(m[id]), #[trigger] items[i])
            &&& m[id] is SetOf ==> !has_dup(items)
            &&& m[id] matches Type::Array(_, n) ==> items.len() == n
        },
{
    let v = Json::Arr(items);
    let st = Seq::<(u64, Json)>::empty();
    let c = settle_fuel(m, on, id, v);
    assert(walk(m, on, st, id, v, c) is Some);
    let f = (c - 1) as nat;
    let e = item_type(m[id]);
    let shape_ok = (m[id] is SetOf ==> !has_dup(items)) && (m[id] matches Type::Array(_, n) ==> items.len() == n);
    if shape_ok {
        assert(walk(m, on, st, id, v, c) == walk_all(m, on, st, e, items, 0, f));
        if default_fits(m, on, id, v) {
            assert forall|i: int| 0 <= i < items.len() implies default_fits(m, on, e, #[trigger] items[i]) by {
                lemma_walk_all_each(m, on, st, e, items, 0, f, i);
                lemma_fits_at(m, on, e, items[i], f);
            }
        }
        if forall|i: int| 0 <= i < items.len() ==> default_fits(m, on, e, #[trigger] items[i]) {
            assert forall|i: int| 0 <= i < items.len() && (#[trigger] walk(m, on, st, e, items[i], f)) is Some implies walk(
                m,
                on,
                st,
                e,
                items[i],
                f,
            ) == Some(true) by {
                lemma_fits_at(m, on, e, items[i], f);
            }
            lemma_walk_all_true(m, on, st, e, items, 0, f);
        }
    }
}

/// Every entry a map walk accepts has its key and its value accepted.
proof fn lemma_walk_entries_each(
    m: Map<u64, Type>,
    on: OptionalNullable,
    st: Seq<(u64, Json)>,
    key: u64,
    value: u64,
    ms: Seq<(Seq<char>, Json)>,
    k: int,
    f: nat,
    i: int,
)
    requires
        walk_entries(m, on, st, key, value, ms, k, f) == Some(true),
        0 <= k <= i < ms.len(),
    ensures
        walk(m, on, st, key, Json::Text(ms[i].0), f) == Some(true),
        walk(m, on, st, value, ms[i].1, f) == Some(true),
    decreases i - k,
{
    if k < i {
        lemma_walk_entries_each(m, on, st, key, value, ms, k + 1, f, i);
    }
}

/// A map walk that answers, over keys and values each accepted whenever
/// their walk answers, accepts.
proof fn lemma_walk_entries_true(
    m: Map<u64, Type>,
    on: OptionalNullable,
    st: Seq<(u64, Json)>,
    key: u64,
    value: u64,
    ms: Seq<(Seq<char>, Json)>,
    k: int,
    f: nat,
)
    requires
        walk_entries(m, on, st, key, value, ms, k, f) is Some,
        0 <= k,
        forall|i: int| k <= i < ms.len() && (#[trigger] walk(m, on, st, key, Json::Text(ms[i].0), f)) is Some ==> walk(m, on, st, key, Json::Text(ms[i].0), f) == Some(true),
        forall|i: int| k <= i < ms.len() && (#[trigger] walk(m, on, st, value, ms[i].1, f)) is Some ==> walk(m, on, st, value, ms[i].1, f) == Some(true),
    ensures
        walk_entries(m, on, st, key, value, ms, k, f) == Some(true),
    decreases ms.len() - k,
{
    if k < ms.len() {
        assert(walk(m, on, st, key, Json::Text(ms[k].0), f) is Some);
        assert(walk(m, on, st, value, ms[k].1, f) is Some);
        lemma_walk_entries_true(m, on, st, key, value, ms, k + 1, f);
    }
}

/// A JSON object is a valid default of a map type exactly when each of
/// its keys, as a string, is a valid default of the key type and each of
/// its values one of the value type.
pub proof fn law_map_default(m: Map<u64, Type>, on: OptionalNullable, id: u64, ms: Seq<(Seq<char>, Json)>)
    requires
        m.contains_key(id),
        m[id] is MapOf,
        default_settles(m, on, id, Json::Obj(ms)),
    ensures
        default_fits(m, on, id, Json::Obj(ms)) <==> forall|i: int|
            0 <= i < ms.len() ==> default_fits(m, on, m[id]->MapOf_0, Json::Text(#[trigger] ms[i].0)) && default_fits(
                m,
                on,
                m[id]->MapOf_1,
                ms[i].1,
            ),
{
    let v = Json::Obj(ms);
    let st = Seq::<(u64, Json)>::empty();
    let c = settle_fuel(m, on, id, v);
    assert(walk(m, on, st, id, v, c) is Some);
    let f = (c - 1) as nat;
    let key = m[id]->MapOf_0;
    let value = m[id]->MapOf_1;
    assert(walk(m, on, st, id, v, c) == walk_entries(m, on, st, key, value, ms, 0, f));
    if default_fits(m, on, id, v) {
        assert forall|i: int| 0 <= i < ms.len() implies default_fits(m, on, key, Json::Text(#[trigger] ms[i].0)) && default_fits(
            m,
            on,
            value,
            ms[i].1,
        ) by {
            lemma_walk_entries_each(m, on, st, key, value, ms, 0, f, i);
            lemma_fits_at(m, on, key, Json::Text(ms[i].0), f);
            lemma_fits_at(m, on, value, ms[i].1, f);
        }
    }
    if forall|i: int| 0 <= i < ms.len() ==> default_fits(m, on, key, Json::Text(#[trigger] ms[i].0)) && default_fits(m, on, value, ms[i].1) {
        assert forall|i: int| 0 <= i < ms.len() && (#[trigger] walk(m, on, st, key, Json::Text(ms[i].0), f)) is Some implies walk(
            m,
            on,
            st,
            key,
            Json::Text(ms[i].0),
            f,
        ) == Some(true) by {
            lemma_fits_at(m, on, key, Json::Text(ms[i].0), f);
        }
        assert forall|i: int| 0 <= i < ms.len() && (#[trigger] walk(m, on, st, value, ms[i].1, f)) is Some implies walk(
            m,
            on,
            st,
            value,
            ms[i].1,
            f,
        ) == Some(true) by {
            assert(default_fits(m, on, key, Json::Text(ms[i].0)));
            lemma_fits_at(m, on, value, ms[i].1, f);
        }
        lemma_walk_entries_true(m, on, st, key, value, ms, 0, f);
    }
}

/// The default of a type that holds no others fits by its JSON kind
/// alone: an integer or float takes a number, a string a string, a bool a
/// bool, the unit type `null`, a JSON value anything, and the never type
/// nothing.
pub proof fn law_leaf_default(m: Map<u64, Type>, on: OptionalNullable, id: u64, v: Json)
    requires
        m.contains_key(id),
    ensures
        m[id] is Integer || m[id] is Float ==> (default_fits(m, on, id, v) <==> v is Number),
        m[id] is String ==> (default_fits(m, on, id, v) <==> v is Text),
        m[id] is Boolean ==> (default_fits(m, on, id, v) <==> v is Bool),
        m[id] is Unit ==> (default_fits(m, on, id, v) <==> v is Null),
        m[id] is JsonValue ==> default_fits(m, on, id, v),
        m[id] is Never ==> !default_fits(m, on, id, v),
{
    if m[id] is Integer || m[id] is Float || m[id] is String || m[id] is Boolean || m[id] is Unit || m[id] is JsonValue || m[id] is Never {
        assert(walk(m, on, Seq::empty(), id, v, 1) is Some);
        lemma_fits_at(m, on, id, v, 1);
    }
}

/// More fuel than the walk of `v` against `id` needs changes nothing.
proof fn lemma_walk_fuel(m: Map<u64, Type>, on: OptionalNullable, st: Seq<(u64, Json)>, id: u64, v: Json, f1: nat, f2: nat)
    requires
        f1 <= f2,
        walk(m, on, st, id, v, f1) is Some,
    ensures
        walk(m, on, st, id, v, f2) == walk(m, on, st, id, v, f1),
    decreases f1, 0nat, 0nat,
{
    let g1 = (f1 - 1) as nat;
    let g2 = (f2 - 1) as nat;
    match m[id] {
        Type::Enum(e) => lemma_enum_fuel(m, on, st, e, v, g1, g2),
        Type::Struct(x) => lemma_props_fuel(m, on, st, x.properties@, x.deny_unknown_fields, v, g1, g2),
        Type::TupleStruct(t) => lemma_tuple_struct_fuel(m, on, st, t, v, g1, g2),
        Type::NewtypeStruct(n) => lemma_guard_fuel(m, on, st, n.inner, v, g1, g2),
        Type::TypeAlias(a) => lemma_guard_fuel(m, on, st, a.target, v, g1, g2),
        Type::Option(e) => {
            if !(v is Null) {
                lemma_guard_fuel(m, on, st, e, v, g1, g2);
            }
        },
        Type::Box(e) => lemma_guard_fuel(m, on, st, e, v, g1, g2),
        Type::Vec(e) => {
            if let Json::Arr(items) = v {
                lemma_all_fuel(m, on, st, e, items, 0, g1, g2);
            }
        },
        Type::MapOf(k, w) => {
            if let Json::Obj(ms) = v {
                lemma_entries_fuel(m, on, st, k, w, ms, 0, g1, g2);
            }
        },
        Type::SetOf(e) => {
            if let Json::Arr(items) = v {
                if !has_dup(items) {
                    lemma_all_fuel(m, on, st, e, items, 0, g1, g2);
                }
            }
        },
        Type::Array(e, len) => {
            if let Json::Arr(items) = v {
                if items.len() == len {
                    lemma_all_fuel(m, on, st, e, items, 0, g1, g2);
                }
            }
        },
        Type::Tuple(ids) => lemma_items_fuel(m, on, st, ids@, v, g1, g2),
        _ => {},
    }
}

/// More fuel than the guarded walk needs changes nothing.
proof fn lemma_guard_fuel(m: Map<u64, Type>, on: OptionalNullable, st: Seq<(u64, Json)>, id: u64, v: Json, f1: nat, f2: nat)
    requires
        f1 <= f2,
        guard(m, on, st, id, v, f1) is Some,
    ensures
        guard(m, on, st, id, v, f2) == guard(m, on, st, id, v, f1),
    decreases f1, 1nat, 0nat,
{
    if !st.contains((id, v)) {
        lemma_walk_fuel(m, on, st.push((id, v)), id, v, f1, f2);
    }
}

/// More fuel than the walk of a list of items needs changes nothing.
proof fn lemma_all_fuel(m: Map<u64, Type>, on: OptionalNullable, st: Seq<(u64, Json)>, e: u64, items: Seq<Json>, k: int, f1: nat, f2: nat)
    requires
        f1 <= f2,
        walk_all(m, on, st, e, items, k, f1) is Some,
    ensures
        walk_all(m, on, st, e, items, k, f2) == walk_all(m, on, st, e, items, k, f1),
    decreases f1, 2nat, items.len() - k,
{
    if 0 <= k < items.len() {
        lemma_walk_fuel(m, on, st, e, items[k], f1, f2);
        if walk(m, on, st, e, items[k], f1) == Some(true) {
            lemma_all_fuel(m, on, st, e, items, k + 1, f1, f2);
        }
    }
}

/// More fuel than the walk of pairs of types and values needs changes
/// nothing.
proof fn lemma_pairs_fuel(m: Map<u64, Type>, on: OptionalNullable, st: Seq<(u64, Json)>, ids: Seq<u64>, vals: Seq<Json>, k: int, f1: nat, f2: nat)
    requires
        f1 <= f2,
        walk_pairs(m, on, st, ids, vals, k, f1) is Some,
    ensures
        walk_pairs(m, on, st, ids, vals, k, f2) == walk_pairs(m, on, st, ids, vals, k, f1),
    decreases f1, 2nat, ids.len() - k,
{
    if 0 <= k < ids.len() {
        lemma_walk_fuel(m, on, st, ids[k], vals[k], f1, f2);
        if walk(m, on, st, ids[k], vals[k], f1) == Some(true) {
            lemma_pairs_fuel(m, on, st, ids, vals, k + 1, f1, f2);
        }
    }
}

/// More fuel than the walk of a map's members needs changes nothing.
proof fn lemma_entries_fuel(
    m: Map<u64, Type>, on: OptionalNullable, st: Seq<(u64, Json)>,
    key: u64,
    value: u64,
    ms: Seq<(Seq<char>, Json)>,
    k: int,
    f1: nat,
    f2: nat,
)
    requires
        f1 <= f2,
        walk_entries(m, on, st, key, value, ms, k, f1) is Some,
    ensures
        walk_entries(m, on, st, key, value, ms, k, f2) == walk_entries(m, on, st, key, value, ms, k, f1),
    decreases f1, 2nat, ms.len() - k,
{
    if 0 <= k < ms.len() {
        lemma_walk_fuel(m, on, st, key, Json::Text(ms[k].0), f1, f2);
        if walk(m, on, st, key, Json::Text(ms[k].0), f1) == Some(true) {
            lemma_walk_fuel(m, on, st, value, ms[k].1, f1, f2);
            if walk(m, on, st, value, ms[k].1, f1) == Some(true) {
                lemma_entries_fuel(m, on, st, key, value, ms, k + 1, f1, f2);
            }
        }
    }
}

/// More fuel than the check of one property needs changes nothing.
proof fn lemma_prop_step_fuel(
    m: Map<u64, Type>, on: OptionalNullable, st: Seq<(u64, Json)>,
    props: Seq<StructProperty>,
    deny: bool,
    ms: Seq<(Seq<char>, Json)>,
    k: int,
    f1: nat,
    f2: nat,
)
    requires
        f1 <= f2,
        prop_step(m, on, st, props, deny, ms, k, f1) is Some,
    ensures
        prop_step(m, on, st, props, deny, ms, k, f2) == prop_step(m, on, st, props, deny, ms, k, f1),
    decreases f1, 2nat, 0nat,
{
    let p = props[k];
    match spec_wire_name(p) {
        Some(name) => match obj_get(ms, name) {
            None => {
                if let StructPropertyState::DefaultValue(d) = p.state {
                    lemma_guard_fuel(m, on, st, p.type_id, json_of(d), f1, f2);
                }
            },
            Some(pv) => {
                if !(p.state is Optional && m.contains_key(p.type_id) && m[p.type_id] is Option && on is CustomType
                    && pv is Null) {
                    lemma_walk_fuel(m, on, st, p.type_id, pv, f1, f2);
                }
            },
        },
        None => {
            if !deny {
                lemma_walk_fuel(m, on, st, p.type_id, Json::Obj(strip_named(ms, props)), f1, f2);
            }
        },
    }
}

/// More fuel than the check of a list of properties needs changes
/// nothing.
proof fn lemma_prop_list_fuel(
    m: Map<u64, Type>, on: OptionalNullable, st: Seq<(u64, Json)>,
    props: Seq<StructProperty>,
    deny: bool,
    ms: Seq<(Seq<char>, Json)>,
    k: int,
    f1: nat,
    f2: nat,
)
    requires
        f1 <= f2,
        walk_prop_list(m, on, st, props, deny, ms, k, f1) is Some,
    ensures
        walk_prop_list(m, on, st, props, deny, ms, k, f2) == walk_prop_list(m, on, st, props, deny, ms, k, f1),
    decreases f1, 3nat, props.len() - k,
{
    if 0 <= k < props.len() {
        lemma_prop_step_fuel(m, on, st, props, deny, ms, k, f1, f2);
        if prop_step(m, on, st, props, deny, ms, k, f1) == Some(true) {
            lemma_prop_list_fuel(m, on, st, props, deny, ms, k + 1, f1, f2);
        }
    }
}

/// More fuel than the check of a struct-shaped value needs changes
/// nothing.
proof fn lemma_props_fuel(m: Map<u64, Type>, on: OptionalNullable, st: Seq<(u64, Json)>, props: Seq<StructProperty>, deny: bool, v: Json, f1: nat, f2: nat)
    requires
        f1 <= f2,
        walk_props(m, on, st, props, deny, v, f1) is Some,
    ensures
        walk_props(m, on, st, props, deny, v, f2) == walk_props(m, on, st, props, deny, v, f1),
    decreases f1, 4nat, 0nat,
{
    if let Json::Obj(ms) = v {
        lemma_prop_list_fuel(m, on, st, props, deny, ms, 0, f1, f2);
    }
}

/// More fuel than the check of a tuple-shaped value needs changes
/// nothing.
proof fn lemma_items_fuel(m: Map<u64, Type>, on: OptionalNullable, st: Seq<(u64, Json)>, ids: Seq<u64>, v: Json, f1: nat, f2: nat)
    requires
        f1 <= f2,
        walk_items(m, on, st, ids, v, f1) is Some,
    ensures
        walk_items(m, on, st, ids, v, f2) == walk_items(m, on, st, ids, v, f1),
    decreases f1, 3nat, 0nat,
{
    if let Json::Arr(items) = v {
        if items.len() == ids.len() {
            lemma_pairs_fuel(m, on, st, ids, items, 0, f1, f2);
        }
    }
}

/// More fuel than the check of a variant's payload needs changes nothing.
proof fn lemma_payload_fuel(m: Map<u64, Type>, on: OptionalNullable, st: Seq<(u64, Json)>, d: VariantDetails, deny: bool, v: Json, f1: nat, f2: nat)
    requires
        f1 <= f2,
        walk_payload(m, on, st, d, deny, v, f1) is Some,
    ensures
        walk_payload(m, on, st, d, deny, v, f2) == walk_payload(m, on, st, d, deny, v, f1),
    decreases f1, 5nat, 0nat,
{
    match d {
        VariantDetails::Unit => {},
        VariantDetails::Item(id) => lemma_walk_fuel(m, on, st, id, v, f1, f2),
        VariantDetails::Tuple(ids) => lemma_items_fuel(m, on, st, ids@, v, f1, f2),
        VariantDetails::Struct(props) => lemma_props_fuel(m, on, st, props@, deny, v, f1, f2),
    }
}

/// More fuel than the check of an externally tagged value needs changes
/// nothing.
proof fn lemma_external_fuel(m: Map<u64, Type>, on: OptionalNullable, st: Seq<(u64, Json)>, e: Enum, v: Json, f1: nat, f2: nat)
    requires
        f1 <= f2,
        walk_external(m, on, st, e, v, f1) is Some,
    ensures
        walk_external(m, on, st, e, v, f2) == walk_external(m, on, st, e, v, f1),
    decreases f1, 6nat, 0nat,
{
    if let Json::Obj(ms) = v {
        if ms.len() == 1 {
            if let Some(i) = first_variant(e.variants@, ms[0].0, 0) {
                lemma_payload_fuel(m, on, st, e.variants@[i].details, e.deny_unknown_fields, ms[0].1, f1, f2);
            }
        }
    }
}

/// More fuel than the check of an internally tagged value needs changes
/// nothing.
proof fn lemma_internal_fuel(m: Map<u64, Type>, on: OptionalNullable, st: Seq<(u64, Json)>, e: Enum, tag: Seq<char>, v: Json, f1: nat, f2: nat)
    requires
        f1 <= f2,
        walk_internal(m, on, st, e, tag, v, f1) is Some,
    ensures
        walk_internal(m, on, st, e, tag, v, f2) == walk_internal(m, on, st, e, tag, v, f1),
    decreases f1, 6nat, 0nat,
{
    if let Json::Obj(ms) = v {
        if let Some(Json::Text(name)) = obj_get(ms, tag) {
            if let Some(i) = first_variant(e.variants@, name, 0) {
                lemma_payload_fuel(
                    m,
                    on,
                    st,
                    e.variants@[i].details,
                    e.deny_unknown_fields,
                    Json::Obj(strip_key(ms, tag)),
                    f1,
                    f2,
                );
            }
        }
    }
}

/// More fuel than the check of an adjacently tagged value needs changes
/// nothing.
proof fn lemma_adjacent_fuel(m: Map<u64, Type>, on: OptionalNullable, st: Seq<(u64, Json)>, e: Enum, tag: Seq<char>, content: Seq<char>, v: Json, f1: nat, f2: nat)
    requires
        f1 <= f2,
        walk_adjacent(m, on, st, e, tag, content, v, f1) is Some,
    ensures
        walk_adjacent(m, on, st, e, tag, content, v, f2) == walk_adjacent(m, on, st, e, tag, content, v, f1),
    decreases f1, 6nat, 0nat,
{
    if let Json::Obj(ms) = v {
        if let Some(Json::Text(name)) = obj_get(ms, tag) {
            if let Some(i) = first_variant(e.variants@, name, 0) {
                let c = obj_get(ms, content);
                let shaped = (ms.len() == 1 && c is None) || (ms.len() == 2 && c is Some);
                if let Some(cv) = c {
                    if shaped && !(e.variants@[i].details is Unit) {
                        lemma_payload_fuel(m, on, st, e.variants@[i].details, e.deny_unknown_fields, cv, f1, f2);
                    }
                }
            }
        }
    }
}

/// More fuel than the check of an untagged value needs changes nothing.
proof fn lemma_untagged_fuel(m: Map<u64, Type>, on: OptionalNullable, st: Seq<(u64, Json)>, vs: Seq<EnumVariant>, deny: bool, v: Json, k: int, f1: nat, f2: nat)
    requires
        f1 <= f2,
        walk_untagged(m, on, st, vs, deny, v, k, f1) is Some,
    ensures
        walk_untagged(m, on, st, vs, deny, v, k, f2) == walk_untagged(m, on, st, vs, deny, v, k, f1),
    decreases f1, 6nat, vs.len() - k,
{
    if 0 <= k < vs.len() {
        match vs[k].details {
            VariantDetails::Unit => {},
            VariantDetails::Item(id) => lemma_guard_fuel(m, on, st, id, v, f1, f2),
            VariantDetails::Tuple(ids) => lemma_items_fuel(m, on, st, ids@, v, f1, f2),
            VariantDetails::Struct(props) => lemma_props_fuel(m, on, st, props@, deny, v, f1, f2),
        }
        let attempt = match vs[k].details {
            VariantDetails::Unit => Some(v is Null),
            VariantDetails::Item(id) => guard(m, on, st, id, v, f1),
            VariantDetails::Tuple(ids) => walk_items(m, on, st, ids@, v, f1),
            VariantDetails::Struct(props) => walk_props(m, on, st, props@, deny, v, f1),
        };
        if attempt == Some(false) {
            lemma_untagged_fuel(m, on, st, vs, deny, v, k + 1, f1, f2);
        }
    }
}

/// More fuel than the check of a tuple struct's value needs changes
/// nothing.
proof fn lemma_tuple_struct_fuel(m: Map<u64, Type>, on: OptionalNullable, st: Seq<(u64, Json)>, t: TupleStruct, v: Json, f1: nat, f2: nat)
    requires
        f1 <= f2,
        walk_tuple_struct(m, on, st, t, v, f1) is Some,
    ensures
        walk_tuple_struct(m, on, st, t, v, f2) == walk_tuple_struct(m, on, st, t, v, f1),
    decreases f1, 6nat, 0nat,
{
    if let Json::Arr(items) = v {
        let n = t.fields@.len();
        let enough = match t.rest {
            Some(_) => items.len() >= n,
            None => items.len() == n,
        };
        if enough {
            lemma_items_fuel(m, on, st, t.fields@, Json::Arr(items.take(n as int)), f1, f2);
            if walk_items(m, on, st, t.fields@, Json::Arr(items.take(n as int)), f1) == Some(true) {
                if let Some(r) = t.rest {
                    lemma_walk_fuel(m, on, st, r, Json::Arr(items.skip(n as int)), f1, f2);
                }
            }
        }
    }
}

/// More fuel than the check of an enum's value needs changes nothing.
proof fn lemma_enum_fuel(m: Map<u64, Type>, on: OptionalNullable, st: Seq<(u64, Json)>, e: Enum, v: Json, f1: nat, f2: nat)
    requires
        f1 <= f2,
        walk_enum(m, on, st, e, v, f1) is Some,
    ensures
        walk_enum(m, on, st, e, v, f2) == walk_enum(m, on, st, e, v, f1),
    decreases f1, 7nat, 0nat,
{
    match e.tag_type {
        Some(EnumTagType::External) => lemma_external_fuel(m, on, st, e, v, f1, f2),
        Some(EnumTagType::Internal { tag }) => lemma_internal_fuel(m, on, st, e, tag@, v, f1, f2),
        Some(EnumTagType::Adjacent { tag, content }) => lemma_adjacent_fuel(m, on, st, e, tag@, content@, v, f1, f2),
        Some(EnumTagType::Untagged) => lemma_untagged_fuel(m, on, st, e.variants@, e.deny_unknown_fields, v, 0, f1, f2),
        None => {},
    }
}

/// The check of a default value has one answer: any two amounts of fuel
/// that bring it to an answer bring it to the same one, so whether a
/// value is a valid default does not depend on the fuel.
pub proof fn law_default_answer_unique(m: Map<u64, Type>, on: OptionalNullable, id: u64, v: Json, f1: nat, f2: nat)
    requires
        walk(m, on, Seq::empty(), id, v, f1) is Some,
        walk(m, on, Seq::empty(), id, v, f2) is Some,
    ensures
        walk(m, on, Seq::empty(), id, v, f1) == walk(m, on, Seq::empty(), id, v, f2),
        default_fits(m, on, id, v) == (walk(m, on, Seq::empty(), id, v, f1) == Some(true)),
{
    let st = Seq::<(u64, Json)>::empty();
    if f1 <= f2 {
        lemma_walk_fuel(m, on, st, id, v, f1, f2);
    } else {
        lemma_walk_fuel(m, on, st, id, v, f2, f1);
    }
    let f = settle_fuel(m, on, id, v);
    assert(walk(m, on, st, id, v, f) is Some);
    if f1 <= f {
        lemma_walk_fuel(m, on, st, id, v, f1, f);
    } else {
        lemma_walk_fuel(m, on, st, id, v, f, f1);
    }
}

/// A function in the generated `defaults` module that properties share:
/// a boolean or integer default value needs no code of its own, since one
/// generic function, parameterized by the value, produces it.
#[derive(Debug, Clone, Copy, PartialEq, Eq, Structural)]
pub enum DefaultHelper {
    /// `default_bool::<const V: bool>() -> bool`
    Boolean,
    /// `default_i64::<T, const V: i64>() -> T`
    I64,
    /// `default_u64::<T, const V: u64>() -> T`
    U64,
    /// `default_nzu64::<T, const V: u64>() -> T`
    NZU64,
}

/// The definition of helper `h` in the generated `defaults` module, as
/// Rust text.
pub open spec fn helper_definition(h: DefaultHelper) -> Seq<char> {
    match h {
        DefaultHelper::Boolean => "pub(super) fn default_bool<const V: bool>() -> bool { V }"@,
        DefaultHelper::I64 => "pub(super) fn default_i64<T, const V: i64>() -> T where T: ::std::convert::TryFrom<i64>, <T as ::std::convert::TryFrom<i64>>::Error: ::std::fmt::Debug, { T::try_from(V).unwrap() }"@,
        DefaultHelper::U64 => "pub(super) fn default_u64<T, const V: u64>() -> T where T: ::std::convert::TryFrom<u64>, <T as ::std::convert::TryFrom<u64>>::Error: ::std::fmt::Debug, { T::try_from(V).unwrap() }"@,
        DefaultHelper::NZU64 => "pub(super) fn default_nzu64<T, const V: u64>() -> T where T: ::std::convert::TryFrom<::std::num::NonZeroU64>, <T as ::std::convert::TryFrom<::std::num::NonZeroU64>>::Error: ::std::fmt::Debug, { T::try_from(::std::num::NonZeroU64::try_from(V).unwrap()).unwrap() }"@,
    }
}

impl DefaultHelper {
    /// The helper's definition, for the `defaults` module.
    pub fn definition(&self) -> (r: &'static str)
        ensures
            r@ == helper_definition(*self),
    {
        match self {
            DefaultHelper::Boolean => "pub(super) fn default_bool<const V: bool>() -> bool { V }",
            DefaultHelper::I64 => "pub(super) fn default_i64<T, const V: i64>() -> T where T: ::std::convert::TryFrom<i64>, <T as ::std::convert::TryFrom<i64>>::Error: ::std::fmt::Debug, { T::try_from(V).unwrap() }",
            DefaultHelper::U64 => "pub(super) fn default_u64<T, const V: u64>() -> T where T: ::std::convert::TryFrom<u64>, <T as ::std::convert::TryFrom<u64>>::Error: ::std::fmt::Debug, { T::try_from(V).unwrap() }",
            DefaultHelper::NZU64 => "pub(super) fn default_nzu64<T, const V: u64>() -> T where T: ::std::convert::TryFrom<::std::num::NonZeroU64>, <T as ::std::convert::TryFrom<::std::num::NonZeroU64>>::Error: ::std::fmt::Debug, { T::try_from(::std::num::NonZeroU64::try_from(V).unwrap()).unwrap() }",
        }
    }
}

/// A shared helper together with the path that instantiates it.
#[derive(Debug, Clone)]
pub struct SharedDefaultFn {
    pub helper: DefaultHelper,
    /// How a property names the helper, as `defaults::name::<args>`.
    pub path: String,
}

/// The decimal rendering of `n`, with a minus sign when it is negative.
pub open spec fn signed_decimal(n: int) -> Seq<char> {
    if n < 0 {
        seq!['-'] + decimal((-n) as nat)
    } else {
        decimal(n as nat)
    }
}

/// Whether integer type `itype` is one of the `::std::num::NonZero*`
/// types, whose values have no literal form.
pub open spec fn is_nonzero_type(itype: Seq<char>) -> bool {
    "::std::num::NonZero"@.is_prefix_of(itype)
}

/// The shared helper that produces default value `v` for a property of
/// type `ty`, with the path that instantiates it: a boolean from
/// `default_bool`; an integer from `default_nzu64` (a `NonZero` type) or
/// `default_u64` when the value is non-negative, and from `default_i64`
/// when it is negative, except for a `NonZero` type, which nothing
/// converts from an `i64`. No other value has one.
pub open spec fn shared_default(ty: Type, v: Json) -> Option<(DefaultHelper, Seq<char>)> {
    match ty {
        Type::Boolean => match v {
            Json::Bool(b) => Some(
                (
                    DefaultHelper::Boolean,
                    "defaults::default_bool::<"@ + (if b {
                        "true"@
                    } else {
                        "false"@
                    }) + ">"@,
                ),
            ),
            _ => None,
        },
        Type::Integer(itype) => match v {
            Json::Number(JsonNum::Pos(u)) => if is_nonzero_type(itype@) {
                Some((DefaultHelper::NZU64, "defaults::default_nzu64::<"@ + itype@ + ", "@ + decimal(u as nat) + ">"@))
            } else {
                Some((DefaultHelper::U64, "defaults::default_u64::<"@ + itype@ + ", "@ + decimal(u as nat) + ">"@))
            },
            Json::Number(JsonNum::Neg(i)) => if is_nonzero_type(itype@) {
                None
            } else {
                Some((DefaultHelper::I64, "defaults::default_i64::<"@ + itype@ + ", "@ + signed_decimal(i as int) + ">"@))
            },
            _ => None,
        },
        _ => None,
    }
}

/// Whether `text` starts with `prefix`.
fn starts_with_text(text: &str, prefix: &str) -> (b: bool)
    ensures
        b == prefix@.is_prefix_of(text@),
{
    let n = prefix.unicode_len();
    if n > text.unicode_len() {
        return false;
    }
    let mut i: usize = 0;
    while i < n
        invariant
            n == prefix@.len(),
            n <= text@.len(),
            i <= n,
            forall|k: int| 0 <= k < i ==> prefix@[k] == text@[k],
        decreases n - i,
    {
        if prefix.get_char(i) != text.get_char(i) {
            return false;
        }
        i = i + 1;
    }
    proof {
        assert(prefix@ =~= text@.subrange(0, n as int));
    }
    true
}

/// The decimal rendering of `n`.
pub(crate) fn decimal_u64(n: u64) -> (s: String)
    ensures
        s@ == decimal(n as nat),
    decreases n,
{
    let last = digit_text((n % 10) as usize);
    proof {
        assert((n % 10) as usize as nat == (n as nat) % 10);
    }
    if n < 10 {
        last.to_owned()
    } else {
        decimal_u64(n / 10).concat(last)
    }
}

/// The decimal rendering of `n`, with a minus sign when it is negative.
pub(crate) fn signed_decimal_text(n: i64) -> (s: String)
    ensures
        s@ == signed_decimal(n as int),
{
    if n < 0 {
        let magnitude: u64 = ((-(n + 1)) as u64) + 1;
        proof {
            reveal_strlit("-");
            assert(magnitude as int == -(n as int));
        }
        "-".to_owned().concat(decimal_u64(magnitude).as_str())
    } else {
        decimal_u64(n as u64)
    }
}

/// Match a property's type and default value to a shared helper: `None`
/// means no helper produces the value, and the property needs a function
/// of its own. Only the type's own node is considered: a named type whose
/// definition is an integer takes a function of its own, since a helper
/// would have to name the value's type as well as produce it.
pub fn shared_default_fn(types: &BTreeMap<u64, Type>, id: u64, value: &JsonValue) -> (r: Option<SharedDefaultFn>)
    requires
        types@.contains_key(id),
    ensures
        match shared_default(types@[id], json_of(*value)) {
            None => r is None,
            Some((helper, path)) => r matches Some(f) && f.helper == helper && f.path@ == path,
        },
{
    proof {
        lemma_u64_key_order();
        reveal_strlit("defaults::default_bool::<");
        reveal_strlit("true");
        reveal_strlit("false");
        reveal_strlit(">");
        reveal_strlit(", ");
        reveal_strlit("::std::num::NonZero");
    }
    match types.get(&id).unwrap() {
        Type::Boolean => match value {
            JsonValue::Bool(b) => {
                let text = if *b {
                    "true"
                } else {
                    "false"
                };
                let path = "defaults::default_bool::<".to_owned().concat(text).concat(">");
                Some(SharedDefaultFn { helper: DefaultHelper::Boolean, path })
            },
            _ => None,
        },
        Type::Integer(itype) => {
            let nonzero = starts_with_text(itype.as_str(), "::std::num::NonZero");
            match value {
                JsonValue::Number(JsonNumber::PosInt(u)) => {
                    let digits = decimal_u64(*u);
                    if nonzero {
                        let path = "defaults::default_nzu64::<".to_owned().concat(itype.as_str()).concat(", ").concat(
                            digits.as_str(),
                        ).concat(">");
                        Some(SharedDefaultFn { helper: DefaultHelper::NZU64, path })
                    } else {
                        let path = "defaults::default_u64::<".to_owned().concat(itype.as_str()).concat(", ").concat(
                            digits.as_str(),
                        ).concat(">");
                        Some(SharedDefaultFn { helper: DefaultHelper::U64, path })
                    }
                },
                JsonValue::Number(JsonNumber::NegInt(i)) => {
                    if nonzero {
                        None
                    } else {
                        let digits = signed_decimal_text(*i);
                        let path = "defaults::default_i64::<".to_owned().concat(itype.as_str()).concat(", ").concat(
                            digits.as_str(),
                        ).concat(">");
                        Some(SharedDefaultFn { helper: DefaultHelper::I64, path })
                    }
                },
                _ => None,
            }
        },
        _ => None,
    }
}

} // verus!
