//! Rust source text of the conversion impls generated for an enum: a
//! `From` impl for each variant whose payload types no other variant
//! shares, and, for enums of one of two shapes, `Display` and `FromStr`.
//!
//! As in `render`, the text is compact Rust: parsing it as a token stream
//! gives the tokens of the generated impls.

use std::collections::BTreeMap;

use vstd::prelude::*;
use vstd::string::StringExecFns;

use crate::build::enums::{variant_wire_name, Enum, EnumVariant, VariantDetails};
use crate::build::{variant_ids, variants_ids, Type};
use crate::finalize::{decimal, decimal_text};
use crate::graph::lemma_u64_key_order;
use crate::items::{lemma_occurs_in_occurs, lemma_occurs_self, lemma_occurs_within, occurs};
use crate::json::str_equal;
use crate::render::{comma_list, ident_text, nameable, std_spelling, type_ident, type_ident_text};
use crate::settings::{Settings, Std};
use crate::syntax::{quoted, spec_quoted};
use crate::traits::{TypespaceTrait, TypespaceTraitSet};

verus! {

/// The text of each of `ids` where it is used.
pub open spec fn payload_idents(m: Map<u64, Type>, s: Settings, ids: Seq<u64>) -> Seq<Seq<char>> {
    ids.map_values(|x: u64| type_ident(m, s, x, None, false))
}

/// What a variant converts from, by the text of each type it carries:
/// its one item, or the elements of its tuple. Nothing for a unit variant
/// or a struct-shaped one, which carry no types of their own to convert
/// from.
pub open spec fn payload_key(m: Map<u64, Type>, s: Settings, v: EnumVariant) -> Option<Seq<Seq<char>>> {
    match v.details {
        VariantDetails::Item(x) => Some(payload_idents(m, s, seq![x])),
        VariantDetails::Tuple(ids) => Some(payload_idents(m, s, ids@)),
        _ => None,
    }
}

/// Variant `i` of `vs` carries a payload that no other variant carries
/// too: two impls converting from the same types would not compile, so
/// such variants get none.
pub open spec fn payload_unique(m: Map<u64, Type>, s: Settings, vs: Seq<EnumVariant>, i: int) -> bool {
    &&& payload_key(m, s, vs[i]) is Some
    &&& forall|j: int| 0 <= j < vs.len() && j != i ==> payload_key(m, s, #[trigger] vs[j]) != payload_key(m, s, vs[i])
}

/// A variant whose one item is a string: its `From<String>` would collide
/// with the `TryFrom<String>` that std derives from it and that a `FromStr`
/// enum writes by hand, so it gets none.
pub open spec fn string_payload(m: Map<u64, Type>, v: EnumVariant) -> bool {
    v.details matches VariantDetails::Item(x) && m[x] is String
}

/// A tuple type of the texts `ps`, with the trailing comma a one-element
/// tuple needs.
pub open spec fn tuple_type_text(ps: Seq<Seq<char>>) -> Seq<char> {
    if ps.len() == 1 {
        "("@ + ps[0] + ",)"@
    } else {
        "("@ + comma_list(ps) + ")"@
    }
}

/// The first `n` elements of `value`, each followed by a comma.
pub open spec fn value_fields(n: nat) -> Seq<char>
    decreases n,
{
    if n == 0 {
        Seq::empty()
    } else {
        value_fields((n - 1) as nat) + "value."@ + decimal((n - 1) as nat) + ", "@
    }
}

/// The `From` impl that builds variant `v` of enum `name` from its payload.
pub open spec fn from_impl_text(m: Map<u64, Type>, s: Settings, name: Seq<char>, v: EnumVariant) -> Seq<char> {
    match v.details {
        VariantDetails::Item(x) => {
            let p = type_ident(m, s, x, None, false);
            "impl ::std::convert::From<"@ + p + "> for "@ + name + " { fn from(value: "@ + p + ") -> Self { Self::"@
                + v.rust_name@ + "(value) } }\n"@
        },
        VariantDetails::Tuple(ids) => {
            let p = tuple_type_text(payload_idents(m, s, ids@));
            "impl ::std::convert::From<"@ + p + "> for "@ + name + " { fn from(value: "@ + p + ") -> Self { Self::"@
                + v.rust_name@ + "("@ + value_fields(ids@.len()) + ") } }\n"@
        },
        _ => Seq::empty(),
    }
}

/// The `From` impls of the first `n` variants of `vs`, in declaration
/// order: one for each variant with a payload of its own that is not a
/// lone string.
pub open spec fn from_impls(m: Map<u64, Type>, s: Settings, name: Seq<char>, vs: Seq<EnumVariant>, n: int) -> Seq<char>
    decreases n,
{
    if n <= 0 {
        Seq::empty()
    } else {
        from_impls(m, s, name, vs, n - 1) + (if payload_unique(m, s, vs, n - 1) && !string_payload(m, vs[n - 1]) {
            from_impl_text(m, s, name, vs[n - 1])
        } else {
            Seq::empty()
        })
    }
}

/// The `From` impls of enum `id` of `m`.
pub open spec fn variant_from_text(m: Map<u64, Type>, s: Settings, id: u64) -> Seq<char> {
    let e = m[id]->Enum_0;
    from_impls(m, s, e.common.name->0@, e.variants@, e.variants@.len() as int)
}

/// Each type a variant of `e` refers to can be named in `m`.
pub open spec fn variants_nameable(m: Map<u64, Type>, s: Settings, e: Enum) -> bool {
    forall|x: u64| #[trigger] variants_ids(e.variants@).contains(x) ==> nameable(m, s, x, None, false)
}

/// The view of a payload key as computed.
pub open spec fn key_view(k: Option<Vec<String>>) -> Option<Seq<Seq<char>>> {
    match k {
        Some(v) => Some(v@.map_values(|t: String| t@)),
        None => None,
    }
}

/// The texts of `ids`, which all refer into `vs`.
fn idents_of(
    types: &BTreeMap<u64, Type>,
    settings: &Settings,
    ids: &Vec<u64>,
    Ghost(vs): Ghost<Seq<EnumVariant>>,
    Ghost(i): Ghost<int>,
) -> (r: Vec<String>)
    requires
        0 <= i < vs.len(),
        variant_ids(vs[i]) == ids@,
        forall|x: u64| #[trigger] variants_ids(vs).contains(x) ==> nameable(types@, *settings, x, None, false),
    ensures
        r@.map_values(|t: String| t@) == payload_idents(types@, *settings, ids@),
{
    let mut out: Vec<String> = Vec::new();
    let mut k: usize = 0;
    while k < ids.len()
        invariant
            k <= ids@.len(),
            0 <= i < vs.len(),
            variant_ids(vs[i]) == ids@,
            forall|x: u64| #[trigger] variants_ids(vs).contains(x) ==> nameable(types@, *settings, x, None, false),
            out@.len() == k,
            forall|a: int| 0 <= a < k ==> (#[trigger] out@[a])@ == type_ident(types@, *settings, ids@[a], None, false),
        decreases ids@.len() - k,
    {
        proof {
            assert(variant_ids(vs[i])[k as int] == ids@[k as int]);
            crate::trait_resolution::lemma_variants_ids_contains(vs, i, ids@[k as int]);
        }
        out.push(type_ident_text(types, settings, ids[k], None, false));
        k = k + 1;
    }
    proof {
        assert(out@.map_values(|t: String| t@) =~= payload_idents(types@, *settings, ids@));
    }
    out
}

/// What variant `i` of `vs` converts from: what [`payload_key`] says.
fn key_of(
    types: &BTreeMap<u64, Type>,
    settings: &Settings,
    v: &EnumVariant,
    Ghost(vs): Ghost<Seq<EnumVariant>>,
    Ghost(i): Ghost<int>,
) -> (r: Option<Vec<String>>)
    requires
        0 <= i < vs.len(),
        vs[i] == *v,
        forall|x: u64| #[trigger] variants_ids(vs).contains(x) ==> nameable(types@, *settings, x, None, false),
    ensures
        key_view(r) == payload_key(types@, *settings, *v),
{
    match &v.details {
        VariantDetails::Item(x) => {
            let ids = vec![*x];
            proof {
                assert(variant_ids(vs[i]) =~= ids@);
            }
            Some(idents_of(types, settings, &ids, Ghost(vs), Ghost(i)))
        },
        VariantDetails::Tuple(ids) => Some(idents_of(types, settings, ids, Ghost(vs), Ghost(i))),
        _ => None,
    }
}

/// Whether two keys are the same.
fn same_key(a: &Option<Vec<String>>, b: &Option<Vec<String>>) -> (r: bool)
    ensures
        r == (key_view(*a) == key_view(*b)),
{
    match (a, b) {
        (Some(x), Some(y)) => {
            if x.len() != y.len() {
                proof {
                    assert(key_view(*a)->0.len() != key_view(*b)->0.len());
                }
                return false;
            }
            let mut k: usize = 0;
            while k < x.len()
                invariant
                    k <= x@.len(),
                    x@.len() == y@.len(),
                    key_view(*a) == Some(x@.map_values(|t: String| t@)),
                    key_view(*b) == Some(y@.map_values(|t: String| t@)),
                    forall|c: int| 0 <= c < k ==> (#[trigger] x@[c])@ == y@[c]@,
                decreases x@.len() - k,
            {
                if !str_equal(x[k].as_str(), y[k].as_str()) {
                    proof {
                        assert(key_view(*a)->0[k as int] == x@[k as int]@);
                        assert(key_view(*b)->0[k as int] == y@[k as int]@);
                        assert(key_view(*a)->0[k as int] != key_view(*b)->0[k as int]);
                    }
                    return false;
                }
                k = k + 1;
            }
            proof {
                assert(key_view(*a)->0.len() == key_view(*b)->0.len());
                assert forall|c: int| 0 <= c < x@.len() implies key_view(*a)->0[c] == key_view(*b)->0[c] by {
                    assert(key_view(*a)->0[c] == x@[c]@);
                    assert(key_view(*b)->0[c] == y@[c]@);
                }
                assert(key_view(*a)->0 =~= key_view(*b)->0);
            }
            true
        },
        (None, None) => true,
        _ => false,
    }
}

/// The first `n` elements of `value`: what [`value_fields`] says.
fn value_fields_text(n: usize) -> (r: String)
    ensures
        r@ == value_fields(n as nat),
{
    let mut out = String::new();
    let mut i: usize = 0;
    while i < n
        invariant
            i <= n,
            out@ == value_fields(i as nat),
        decreases n - i,
    {
        out.append("value.");
        out.append(decimal_text(i).as_str());
        out.append(", ");
        i = i + 1;
    }
    out
}

/// `parts` separated by `", "`: what [`comma_list`] says.
fn comma_text(parts: &Vec<String>) -> (r: String)
    ensures
        r@ == comma_list(parts@.map_values(|t: String| t@)),
{
    let ghost all = parts@.map_values(|t: String| t@);
    let mut out = String::new();
    let mut i: usize = 0;
    while i < parts.len()
        invariant
            i <= parts@.len(),
            all == parts@.map_values(|t: String| t@),
            out@ == comma_list(all.take(i as int)),
        decreases parts@.len() - i,
    {
        proof {
            assert(all.take(i + 1).drop_last() =~= all.take(i as int));
            assert(all.take(i + 1).last() == parts@[i as int]@);
        }
        if i > 0 {
            out.append(", ");
        } else {
            proof {
                assert(out@ =~= Seq::<char>::empty());
            }
        }
        out.append(parts[i].as_str());
        proof {
            if i == 0 {
                assert(out@ =~= parts@[0]@);
            }
        }
        i = i + 1;
    }
    proof {
        assert(all.take(parts@.len() as int) =~= all);
    }
    out
}

/// The `From` impl of variant `v` of enum `name`, whose payload texts are
/// `key`: what [`from_impl_text`] says.
fn from_impl_block(
    types: &BTreeMap<u64, Type>,
    settings: &Settings,
    name: &str,
    v: &EnumVariant,
    key: &Vec<String>,
) -> (r: String)
    requires
        payload_key(types@, *settings, *v) == Some(key@.map_values(|t: String| t@)),
    ensures
        r@ == from_impl_text(types@, *settings, name@, *v),
{
    match &v.details {
        VariantDetails::Item(x) => {
            proof {
                let kv = key@.map_values(|t: String| t@);
                assert(kv.len() == key@.len());
                assert(kv == payload_idents(types@, *settings, seq![*x]));
                assert(kv.len() == 1);
                assert(kv[0] == key@[0]@);
            }
            let p = &key[0];
            "impl ::std::convert::From<".to_owned().concat(p.as_str()).concat("> for ").concat(name).concat(
                " { fn from(value: ",
            ).concat(p.as_str()).concat(") -> Self { Self::").concat(v.rust_name.as_str()).concat("(value) } }\n")
        },
        VariantDetails::Tuple(ids) => {
            let p = if key.len() == 1 {
                proof {
                    assert(key@.map_values(|t: String| t@)[0] == key@[0]@);
                }
                "(".to_owned().concat(key[0].as_str()).concat(",)")
            } else {
                "(".to_owned().concat(comma_text(key).as_str()).concat(")")
            };
            "impl ::std::convert::From<".to_owned().concat(p.as_str()).concat("> for ").concat(name).concat(
                " { fn from(value: ",
            ).concat(p.as_str()).concat(") -> Self { Self::").concat(v.rust_name.as_str()).concat("(").concat(
                value_fields_text(ids.len()).as_str(),
            ).concat(") } }\n")
        },
        _ => String::new(),
    }
}

/// The `From` impls of enum `id` of `types`: what [`variant_from_text`]
/// says.
pub fn render_variant_from(types: &BTreeMap<u64, Type>, settings: &Settings, id: u64) -> (r: String)
    requires
        types@.contains_key(id),
        types@[id] is Enum,
        types@[id]->Enum_0.common.name is Some,
        variants_nameable(types@, *settings, types@[id]->Enum_0),
    ensures
        r@ == variant_from_text(types@, *settings, id),
{
    proof {
        lemma_u64_key_order();
    }
    let e = match types.get(&id).unwrap() {
        Type::Enum(e) => e,
        _ => {
            return String::new();
        },
    };
    let ghost vs = e.variants@;
    let name = e.common.built_name();
    let mut keys: Vec<Option<Vec<String>>> = Vec::new();
    let mut i: usize = 0;
    while i < e.variants.len()
        invariant
            i <= vs.len(),
            vs == e.variants@,
            forall|x: u64| #[trigger] variants_ids(vs).contains(x) ==> nameable(types@, *settings, x, None, false),
            keys@.len() == i,
            forall|k: int| 0 <= k < i ==> key_view(#[trigger] keys@[k]) == payload_key(types@, *settings, vs[k]),
        decreases vs.len() - i,
    {
        keys.push(key_of(types, settings, &e.variants[i], Ghost(vs), Ghost(i as int)));
        i = i + 1;
    }
    let mut out = String::new();
    let mut i: usize = 0;
    while i < e.variants.len()
        invariant
            i <= vs.len(),
            vs == e.variants@,
            keys@.len() == vs.len(),
            forall|x: u64| #[trigger] variants_ids(vs).contains(x) ==> nameable(types@, *settings, x, None, false),
            forall|k: int| 0 <= k < vs.len() ==> key_view(#[trigger] keys@[k]) == payload_key(types@, *settings, vs[k]),
            out@ == from_impls(types@, *settings, name@, vs, i as int),
        decreases vs.len() - i,
    {
        let unique = match &keys[i] {
            None => false,
            Some(_) => {
                let mut j: usize = 0;
                let mut clash = false;
                while j < keys.len()
                    invariant
                        j <= keys@.len(),
                        i < keys@.len(),
                        keys@.len() == vs.len(),
                        keys@[i as int] is Some,
                        forall|k: int| 0 <= k < vs.len() ==> key_view(#[trigger] keys@[k]) == payload_key(types@, *settings, vs[k]),
                        clash == exists|k: int| 0 <= k < j && k != i && #[trigger] payload_key(types@, *settings, vs[k]) == payload_key(types@, *settings, vs[i as int]),
                    decreases keys@.len() - j,
                {
                    if j != i && same_key(&keys[j], &keys[i]) {
                        clash = true;
                    }
                    j = j + 1;
                }
                !clash
            },
        };
        let string_item = match &e.variants[i].details {
            VariantDetails::Item(x) => matches!(types.get(x), Some(Type::String)),
            _ => false,
        };
        proof {
            assert(unique == payload_unique(types@, *settings, vs, i as int));
            if let VariantDetails::Item(x) = vs[i as int].details {
                assert(variant_ids(vs[i as int])[0] == x);
                crate::trait_resolution::lemma_variants_ids_contains(vs, i as int, x);
                let fuel = choose|fuel: nat| #[trigger] ident_text(types@, *settings, x, None, false, fuel) is Some;
                assert(types@.contains_key(x));
            }
            assert(string_item == string_payload(types@, vs[i as int]));
        }
        if unique && !string_item {
            match &keys[i] {
                Some(key) => {
                    out.append(from_impl_block(types, settings, name, &e.variants[i], key).as_str());
                },
                None => {},
            }
        }
        i = i + 1;
    }
    out
}

/// The match arms writing each unit variant of `vs` as its serialized
/// name.
pub open spec fn unit_display_arms(vs: Seq<EnumVariant>) -> Seq<char>
    decreases vs.len(),
{
    if vs.len() == 0 {
        Seq::empty()
    } else {
        unit_display_arms(vs.drop_last()) + "Self::"@ + vs.last().rust_name@ + " => f.write_str("@ + spec_quoted(
            variant_wire_name(vs.last()),
        ) + "), "@
    }
}

/// The match arms parsing each unit variant of `vs` from its serialized
/// name.
pub open spec fn unit_parse_arms(vs: Seq<EnumVariant>) -> Seq<char>
    decreases vs.len(),
{
    if vs.len() == 0 {
        Seq::empty()
    } else {
        unit_parse_arms(vs.drop_last()) + spec_quoted(variant_wire_name(vs.last())) + " => Ok(Self::"@
            + vs.last().rust_name@ + "), "@
    }
}

/// The match arms displaying each item variant of `vs` as its payload.
pub open spec fn item_display_arms(vs: Seq<EnumVariant>) -> Seq<char>
    decreases vs.len(),
{
    if vs.len() == 0 {
        Seq::empty()
    } else {
        item_display_arms(vs.drop_last()) + "Self::"@ + vs.last().rust_name@ + "(x) => x.fmt(f), "@
    }
}

/// The attempts to parse a string as the payload of each item variant of
/// `vs`, in order.
pub open spec fn item_parse_tries(vs: Seq<EnumVariant>) -> Seq<char>
    decreases vs.len(),
{
    if vs.len() == 0 {
        Seq::empty()
    } else {
        item_parse_tries(vs.drop_last()) + "if let Ok(v) = value.parse() { Ok(Self::"@ + vs.last().rust_name@
            + "(v)) } else "@
    }
}

/// The `Display` impl of enum `name` whose match arms are `arms`, over
/// `scrutinee`.
pub open spec fn display_text(name: Seq<char>, scrutinee: Seq<char>, arms: Seq<char>) -> Seq<char> {
    "impl ::std::fmt::Display for "@ + name
        + " { fn fmt(&self, f: &mut ::std::fmt::Formatter<'_>) -> ::std::fmt::Result { match "@ + scrutinee + " { "@
        + arms + "} } }\n"@
}

/// The two `TryFrom` impls that parse enum `name` from a string slice and
/// from an owned string spelled `string_type`.
pub open spec fn try_from_text(name: Seq<char>, string_type: Seq<char>) -> Seq<char> {
    "impl ::std::convert::TryFrom<&str> for "@ + name
        + " { type Error = self::error::ConversionError; fn try_from(value: &str) -> ::std::result::Result<Self, self::error::ConversionError> { value.parse() } }\n"@
        + "impl ::std::convert::TryFrom<"@ + string_type + "> for "@ + name
        + " { type Error = self::error::ConversionError; fn try_from(value: "@ + string_type
        + ") -> ::std::result::Result<Self, self::error::ConversionError> { value.parse() } }\n"@
}

/// The `FromStr` impl of enum `name` with body `body`, then its `TryFrom`
/// impls.
pub open spec fn from_str_text(name: Seq<char>, body: Seq<char>, string_type: Seq<char>) -> Seq<char> {
    "impl ::std::str::FromStr for "@ + name
        + " { type Err = self::error::ConversionError; fn from_str(value: &str) -> ::std::result::Result<Self, self::error::ConversionError> { "@
        + body + " } }\n"@ + try_from_text(name, string_type)
}

/// The `Display` and `FromStr` impls generated by hand for enum `id` of
/// `m`, for those of the two traits its traits hold: an enum of tagged
/// unit variants displays and parses each variant as its serialized name;
/// an untagged enum of item variants displays its payload and parses as
/// the first variant whose payload parses. Other enums get neither.
pub open spec fn special_impls_text(m: Map<u64, Type>, s: Settings, id: u64) -> Seq<char> {
    let e = m[id]->Enum_0;
    let traits = m[id].built_of()->0@;
    let name = e.common.name->0@;
    let vs = e.variants@;
    if e.spec_all_tagged_unit_variants() {
        (if traits.contains(TypespaceTrait::Display) {
            display_text(name, "*self"@, unit_display_arms(vs))
        } else {
            Seq::empty()
        }) + (if traits.contains(TypespaceTrait::FromStr) {
            from_str_text(
                name,
                "match value { "@ + unit_parse_arms(vs) + "_ => Err(\"invalid value\".into()), }"@,
                std_spelling(s.std, "::std::string::String"@, "String"@),
            )
        } else {
            Seq::empty()
        })
    } else if e.spec_all_untagged_item_variants() {
        (if traits.contains(TypespaceTrait::Display) {
            display_text(name, "self"@, item_display_arms(vs))
        } else {
            Seq::empty()
        }) + (if traits.contains(TypespaceTrait::FromStr) {
            from_str_text(
                name,
                item_parse_tries(vs) + "{ Err(\"string conversion failed for all variants\".into()) }"@,
                "::std::string::String"@,
            )
        } else {
            Seq::empty()
        })
    } else {
        Seq::empty()
    }
}

/// The arms of [`unit_display_arms`], [`unit_parse_arms`],
/// [`item_display_arms`] or [`item_parse_tries`], as `kind` selects.
pub open spec fn arms_of(kind: u8, vs: Seq<EnumVariant>) -> Seq<char> {
    if kind == 0 {
        unit_display_arms(vs)
    } else if kind == 1 {
        unit_parse_arms(vs)
    } else if kind == 2 {
        item_display_arms(vs)
    } else {
        item_parse_tries(vs)
    }
}

/// The arms of `kind` for `variants`.
fn arms_block(kind: u8, variants: &Vec<EnumVariant>) -> (r: String)
    ensures
        r@ == arms_of(kind, variants@),
{
    let ghost vs = variants@;
    let mut out = String::new();
    let mut i: usize = 0;
    while i < variants.len()
        invariant
            i <= vs.len(),
            vs == variants@,
            out@ == arms_of(kind, vs.take(i as int)),
        decreases vs.len() - i,
    {
        proof {
            assert(vs.take(i + 1).drop_last() =~= vs.take(i as int));
            assert(vs.take(i + 1).last() == vs[i as int]);
        }
        let v = &variants[i];
        if kind == 0 {
            out.append("Self::");
            out.append(v.rust_name.as_str());
            out.append(" => f.write_str(");
            out.append(quoted(v.json_name()).as_str());
            out.append("), ");
        } else if kind == 1 {
            out.append(quoted(v.json_name()).as_str());
            out.append(" => Ok(Self::");
            out.append(v.rust_name.as_str());
            out.append("), ");
        } else if kind == 2 {
            out.append("Self::");
            out.append(v.rust_name.as_str());
            out.append("(x) => x.fmt(f), ");
        } else {
            out.append("if let Ok(v) = value.parse() { Ok(Self::");
            out.append(v.rust_name.as_str());
            out.append("(v)) } else ");
        }
        i = i + 1;
    }
    proof {
        assert(vs.take(vs.len() as int) =~= vs);
    }
    out
}

/// The `TryFrom` impls of enum `name`: what [`try_from_text`] says.
fn try_from_block(name: &str, string_type: &str) -> (r: String)
    ensures
        r@ == try_from_text(name@, string_type@),
{
    let mut out = "impl ::std::convert::TryFrom<&str> for ".to_owned();
    out.append(name);
    out.append(" { type Error = self::error::ConversionError; fn try_from(value: &str) -> ::std::result::Result<Self, self::error::ConversionError> { value.parse() } }\n");
    out.append("impl ::std::convert::TryFrom<");
    out.append(string_type);
    out.append("> for ");
    out.append(name);
    out.append(" { type Error = self::error::ConversionError; fn try_from(value: ");
    out.append(string_type);
    out.append(") -> ::std::result::Result<Self, self::error::ConversionError> { value.parse() } }\n");
    out
}

/// The `Display` impl: what [`display_text`] says.
fn display_block(name: &str, scrutinee: &str, arms: &str) -> (r: String)
    ensures
        r@ == display_text(name@, scrutinee@, arms@),
{
    let mut out = "impl ::std::fmt::Display for ".to_owned();
    out.append(name);
    out.append(" { fn fmt(&self, f: &mut ::std::fmt::Formatter<'_>) -> ::std::fmt::Result { match ");
    out.append(scrutinee);
    out.append(" { ");
    out.append(arms);
    out.append("} } }\n");
    out
}

/// The `FromStr` impl and its `TryFrom` impls: what [`from_str_text`]
/// says.
fn from_str_block(name: &str, body: &str, string_type: &str) -> (r: String)
    ensures
        r@ == from_str_text(name@, body@, string_type@),
{
    let mut out = "impl ::std::str::FromStr for ".to_owned();
    out.append(name);
    out.append(" { type Err = self::error::ConversionError; fn from_str(value: &str) -> ::std::result::Result<Self, self::error::ConversionError> { ");
    out.append(body);
    out.append(" } }\n");
    out.append(try_from_block(name, string_type).as_str());
    out
}

/// The `Display` and `FromStr` impls of enum `id` of `types`: what
/// [`special_impls_text`] says.
pub fn render_special_impls(types: &BTreeMap<u64, Type>, settings: &Settings, id: u64) -> (r: String)
    requires
        types@.contains_key(id),
        types@[id] is Enum,
        types@[id]->Enum_0.common.name is Some,
        types@[id].built_of() is Some,
    ensures
        r@ == special_impls_text(types@, *settings, id),
{
    proof {
        lemma_u64_key_order();
    }
    let e = match types.get(&id).unwrap() {
        Type::Enum(e) => e,
        _ => {
            return String::new();
        },
    };
    let traits = match &e.common.built {
        Some(b) => b.traits,
        None => TypespaceTraitSet::empty(),
    };
    let name = e.common.built_name();
    let mut out = String::new();
    if e.all_tagged_unit_variants() {
        if traits.contains(&TypespaceTrait::Display) {
            out.append(display_block(name, "*self", arms_block(0, &e.variants).as_str()).as_str());
        }
        if traits.contains(&TypespaceTrait::FromStr) {
            let body = "match value { ".to_owned().concat(arms_block(1, &e.variants).as_str()).concat(
                "_ => Err(\"invalid value\".into()), }",
            );
            let string_type = match settings.std {
                Std::FullyQualified => "::std::string::String",
                Std::Unqualified => "String",
            };
            out.append(from_str_block(name, body.as_str(), string_type).as_str());
        }
    } else if e.all_untagged_item_variants() {
        if traits.contains(&TypespaceTrait::Display) {
            out.append(display_block(name, "self", arms_block(2, &e.variants).as_str()).as_str());
        }
        if traits.contains(&TypespaceTrait::FromStr) {
            let body = arms_block(3, &e.variants).concat("{ Err(\"string conversion failed for all variants\".into()) }");
            out.append(from_str_block(name, body.as_str(), "::std::string::String").as_str());
        }
    }
    proof {
        assert(out@ =~= special_impls_text(types@, *settings, id));
    }
    out
}

/// Each of the first `n` variants that gets an impl has it among the
/// impls of the first `n`.
proof fn lemma_from_impls_occur(m: Map<u64, Type>, s: Settings, name: Seq<char>, vs: Seq<EnumVariant>, n: int, i: int)
    requires
        0 <= i < n <= vs.len(),
        payload_unique(m, s, vs, i),
        !string_payload(m, vs[i]),
    ensures
        occurs(from_impl_text(m, s, name, vs[i]), from_impls(m, s, name, vs, n)),
    decreases n,
{
    let t = from_impl_text(m, s, name, vs[i]);
    if i == n - 1 {
        lemma_occurs_self(t);
        lemma_occurs_within(t, from_impls(m, s, name, vs, n - 1), t, Seq::empty());
        assert(from_impls(m, s, name, vs, n - 1) + t + Seq::<char>::empty() =~= from_impls(m, s, name, vs, n));
    } else {
        lemma_from_impls_occur(m, s, name, vs, n - 1, i);
        let last = if payload_unique(m, s, vs, n - 1) && !string_payload(m, vs[n - 1]) {
            from_impl_text(m, s, name, vs[n - 1])
        } else {
            Seq::empty()
        };
        lemma_occurs_within(t, Seq::empty(), from_impls(m, s, name, vs, n - 1), last);
        assert(Seq::<char>::empty() + from_impls(m, s, name, vs, n - 1) + last =~= from_impls(m, s, name, vs, n));
    }
}

/// Every variant that carries a payload of its own, shared with no other
/// variant and not a lone string, gets its `From` impl: the impl
/// converting that payload into that variant stands among the enum's
/// impls.
pub proof fn law_variant_from_each(m: Map<u64, Type>, s: Settings, id: u64, i: int)
    requires
        m[id] is Enum,
        0 <= i < m[id]->Enum_0.variants@.len(),
        payload_unique(m, s, m[id]->Enum_0.variants@, i),
        !string_payload(m, m[id]->Enum_0.variants@[i]),
    ensures
        occurs(
            from_impl_text(m, s, m[id]->Enum_0.common.name->0@, m[id]->Enum_0.variants@[i]),
            variant_from_text(m, s, id),
        ),
        occurs(
            ") -> Self { Self::"@ + m[id]->Enum_0.variants@[i].rust_name@,
            variant_from_text(m, s, id),
        ),
{
    let e = m[id]->Enum_0;
    let vs = e.variants@;
    let name = e.common.name->0@;
    lemma_from_impls_occur(m, s, name, vs, vs.len() as int, i);
    let v = vs[i];
    let t = from_impl_text(m, s, name, v);
    let needle = ") -> Self { Self::"@ + v.rust_name@;
    lemma_occurs_self(needle);
    match v.details {
        VariantDetails::Item(x) => {
            let p = type_ident(m, s, x, None, false);
            let pre = "impl ::std::convert::From<"@ + p + "> for "@ + name + " { fn from(value: "@ + p;
            assert(t =~= pre + needle + "(value) } }\n"@);
            lemma_occurs_within(needle, pre, needle, "(value) } }\n"@);
        },
        VariantDetails::Tuple(ids) => {
            let p = tuple_type_text(payload_idents(m, s, ids@));
            let pre = "impl ::std::convert::From<"@ + p + "> for "@ + name + " { fn from(value: "@ + p;
            let post = "("@ + value_fields(ids@.len()) + ") } }\n"@;
            assert(t =~= pre + needle + post);
            lemma_occurs_within(needle, pre, needle, post);
        },
        _ => {},
    }
    lemma_occurs_in_occurs(needle, t, variant_from_text(m, s, id));
}

} // verus!
