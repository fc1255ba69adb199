//! Rust source text of the items generated for unit structs, tuple
//! structs and newtype structs: the struct declaration with its doc,
//! derive and extra attributes, then the impls written by hand: `serde`
//! impls where the struct's traits ask for them, and a newtype's
//! conversions.
//!
//! As in `render`, the text is compact Rust: parsing it as a token stream
//! gives the tokens of the generated item.

use std::collections::BTreeMap;

use vstd::prelude::*;
use vstd::string::StringExecFns;

use crate::build::structs::NewtypeConstraints;
use crate::build::Type;
use crate::graph::lemma_u64_key_order;
use crate::finalize::{decimal, decimal_text};
use crate::json::json_of;
use crate::json_text::{json_text, json_value_text, value_expr, value_expr_text};
use crate::render::{derive_attribute, doc_attr, nameable, render_derives, texts, type_ident, type_ident_text};
use crate::settings::Settings;
use crate::syntax::{quoted, spec_quoted};
use crate::traits::{TypespaceTrait, TypespaceTraitSet};

verus! {

/// Each of `parts` followed by a line break.
pub open spec fn lines(parts: Seq<Seq<char>>) -> Seq<char>
    decreases parts.len(),
{
    if parts.len() == 0 {
        Seq::empty()
    } else {
        lines(parts.drop_last()) + parts.last() + "\n"@
    }
}

/// The extra attributes of a type: those of the settings, then its own,
/// one per line.
pub open spec fn attrs_text(s: Settings, extra: Seq<String>) -> Seq<char> {
    lines(texts(s.extra_attrs@) + texts(extra))
}

/// An optional line: the text and a line break, or nothing.
pub open spec fn opt_line(t: Option<Seq<char>>) -> Seq<char> {
    match t {
        Some(x) => x + "\n"@,
        None => Seq::empty(),
    }
}

/// `set` without the two `serde` traits, which generated code implements
/// by hand for these shapes.
pub open spec fn without_serde(set: Set<TypespaceTrait>) -> Set<TypespaceTrait> {
    set.remove(TypespaceTrait::Serialize).remove(TypespaceTrait::Deserialize)
}

/// The traits finalization gave a unit struct or tuple struct `id` of `m`.
pub open spec fn item_traits(m: Map<u64, Type>, id: u64) -> Set<TypespaceTrait> {
    m[id].built_of()->0@
}

/// What rendering a unit struct or tuple struct `id` of `m` relies on: it
/// is named, finalization gave it its traits, and none of them is one
/// that is never derived.
pub open spec fn renderable(m: Map<u64, Type>, id: u64) -> bool {
    &&& m.contains_key(id)
    &&& m[id].common_of() is Some
    &&& m[id].common_of()->0.name is Some
    &&& m[id].built_of() is Some
    &&& !item_traits(m, id).contains(TypespaceTrait::Display)
    &&& !item_traits(m, id).contains(TypespaceTrait::FromStr)
}

/// The `Serialize` impl of unit struct `name`: it serializes the value
/// `repr` constructs.
pub open spec fn unit_ser_text(name: Seq<char>, repr: Seq<char>) -> Seq<char> {
    "impl ::serde::Serialize for "@ + name
        + " { fn serialize<S>(&self, serializer: S) -> Result<S::Ok, S::Error> where S: ::serde::Serializer { "@
        + repr + ".serialize(serializer) } }\n"@
}

/// The `Deserialize` impl of unit struct `name`: it accepts exactly the
/// value `repr` constructs, and otherwise fails naming `repr_json`.
pub open spec fn unit_de_text(name: Seq<char>, repr: Seq<char>, repr_json: Seq<char>) -> Seq<char> {
    "impl<'de> ::serde::Deserialize<'de> for "@ + name
        + " { fn deserialize<D>(deserializer: D) -> Result<Self, D::Error> where D: ::serde::Deserializer<'de> { let expected = "@
        + repr
        + "; let value: serde_json::Value = ::serde::Deserialize::deserialize(deserializer)?; if value != expected { return Err(::serde::de::Error::custom(format!(\"expected unit struct value {}, found {}\", "@
        + spec_quoted(repr_json) + ", ::serde_json::to_string(&value).unwrap()))); } Ok("@ + name + ") } }\n"@
}

/// The item of unit struct `id` of `m`: doc, derives, extra attributes,
/// the declaration, then the `serde` impls its traits ask for.
pub open spec fn unit_struct_item_text(m: Map<u64, Type>, s: Settings, id: u64) -> Seq<char> {
    let u = m[id]->UnitStruct_0;
    let traits = item_traits(m, id);
    let name = u.common.name->0@;
    let repr = value_expr_text(json_of(u.repr));
    doc_attr(u.common.description) + opt_line(derive_attribute(without_serde(traits), s, u.common.extra_derives@))
        + attrs_text(s, u.common.extra_attrs@) + "pub struct "@ + name + ";\n"@ + (if traits.contains(
        TypespaceTrait::Serialize,
    ) {
        unit_ser_text(name, repr)
    } else {
        Seq::empty()
    }) + (if traits.contains(TypespaceTrait::Deserialize) {
        unit_de_text(name, repr, json_text(json_of(u.repr)))
    } else {
        Seq::empty()
    })
}

/// Each of `ids`, by its identifier, as a public field of a tuple struct.
pub open spec fn field_list(m: Map<u64, Type>, s: Settings, ids: Seq<u64>) -> Seq<char>
    decreases ids.len(),
{
    if ids.len() == 0 {
        Seq::empty()
    } else {
        field_list(m, s, ids.drop_last()) + "pub "@ + type_ident(m, s, ids.last(), None, false) + ", "@
    }
}

/// The statements serializing the first `n` positional fields.
pub open spec fn ser_lines(n: nat) -> Seq<char>
    decreases n,
{
    if n == 0 {
        Seq::empty()
    } else {
        ser_lines((n - 1) as nat) + "seq.serialize_element(&self."@ + decimal((n - 1) as nat) + ")?; "@
    }
}

/// The statements reading the first `n` positional fields, each failing
/// with its index and the literal `expected` when the sequence ends.
pub open spec fn de_lines(n: nat, expected: Seq<char>) -> Seq<char>
    decreases n,
{
    if n == 0 {
        Seq::empty()
    } else {
        de_lines((n - 1) as nat, expected) + "let field_"@ + decimal((n - 1) as nat)
            + " = seq.next_element()?.ok_or_else(|| ::serde::de::Error::invalid_length("@ + decimal((n - 1) as nat)
            + "usize, &"@ + expected + "))?; "@
    }
}

/// The variables holding the first `n` positional fields, in order.
pub open spec fn field_vars(n: nat) -> Seq<char>
    decreases n,
{
    if n == 0 {
        Seq::empty()
    } else {
        field_vars((n - 1) as nat) + "field_"@ + decimal((n - 1) as nat) + ", "@
    }
}

/// What a tuple struct of `n` positional fields tells a sequence that ends
/// early.
pub open spec fn tuple_expected(n: nat) -> Seq<char> {
    "a tuple of size "@ + decimal(n) + " or more"@
}

/// The `Serialize` impl of tuple struct `name` with `n` positional fields,
/// and a flattened rest field when `rest`.
pub open spec fn tuple_ser_text(name: Seq<char>, n: nat, rest: bool) -> Seq<char> {
    "impl ::serde::Serialize for "@ + name
        + " { fn serialize<S>(&self, serializer: S) -> Result<S::Ok, S::Error> where S: ::serde::Serializer { use ::serde::ser::SerializeSeq; let mut seq = serializer.serialize_seq(None)?; "@
        + ser_lines(n) + (if rest {
        "self."@ + decimal(n) + ".serialize(::json_serde::FlattenedSequenceSerializer::new(&mut seq))?; "@
    } else {
        Seq::empty()
    }) + "seq.end() } }\n"@
}

/// The `Deserialize` impl of tuple struct `name` with `n` positional
/// fields, and a flattened rest field when `rest`.
pub open spec fn tuple_de_text(name: Seq<char>, n: nat, rest: bool) -> Seq<char> {
    "impl<'de> ::serde::Deserialize<'de> for "@ + name
        + " { fn deserialize<D>(deserializer: D) -> Result<Self, D::Error> where D: ::serde::Deserializer<'de> { struct Visitor; impl<'de> ::serde::de::Visitor<'de> for Visitor { type Value = "@
        + name
        + "; fn expecting(&self, formatter: &mut ::std::fmt::Formatter) -> ::std::fmt::Result { formatter.write_str(\"a sequence\") } fn visit_seq<A>(self, mut seq: A) -> Result<Self::Value, A::Error> where A: ::serde::de::SeqAccess<'de> { "@
        + de_lines(n, spec_quoted(tuple_expected(n))) + (if rest {
        "let rest = ::serde::Deserialize::deserialize(::json_serde::FlattenedSequenceDeserializer::new(&mut seq))?; "@
    } else {
        Seq::empty()
    }) + "Ok("@ + name + "("@ + field_vars(n) + (if rest {
        "rest, "@
    } else {
        Seq::empty()
    }) + ")) } } deserializer.deserialize_seq(Visitor) } }\n"@
}

/// The item of tuple struct `id` of `m`: doc, extra attributes, derives,
/// the declaration with its public fields, then the `serde` impls its
/// traits ask for.
pub open spec fn tuple_struct_item_text(m: Map<u64, Type>, s: Settings, id: u64) -> Seq<char> {
    let t = m[id]->TupleStruct_0;
    let traits = item_traits(m, id);
    let name = t.common.name->0@;
    let n = t.fields@.len();
    let rest = t.rest is Some;
    doc_attr(t.common.description) + attrs_text(s, t.common.extra_attrs@) + opt_line(
        derive_attribute(without_serde(traits), s, t.common.extra_derives@),
    ) + "pub struct "@ + name + "("@ + field_list(m, s, crate::build::tuple_struct_ids(t)) + ");\n"@ + (
    if traits.contains(TypespaceTrait::Serialize) {
        tuple_ser_text(name, n, rest)
    } else {
        Seq::empty()
    }) + (if traits.contains(TypespaceTrait::Deserialize) {
        tuple_de_text(name, n, rest)
    } else {
        Seq::empty()
    })
}

/// The `#[serde(transparent)]` of a newtype whose derived traits are
/// `set`: under `serde` when it derives a `serde` trait, under `schemars`
/// when it derives only `JsonSchema`, absent otherwise.
pub open spec fn transparent_attr(set: Set<TypespaceTrait>) -> Seq<char> {
    if set.contains(TypespaceTrait::Serialize) || set.contains(TypespaceTrait::Deserialize) {
        "#[serde(transparent)]\n"@
    } else if set.contains(TypespaceTrait::JsonSchema) {
        "#[schemars(transparent)]\n"@
    } else {
        Seq::empty()
    }
}

/// The `Deref` impl of newtype `name` to its inner type `inner`.
pub open spec fn deref_text(name: Seq<char>, inner: Seq<char>) -> Seq<char> {
    "impl ::std::ops::Deref for "@ + name + " { type Target = "@ + inner + "; fn deref(&self) -> &"@ + inner
        + " { &self.0 } }\n"@
}

/// The two `From` impls converting between unconstrained newtype `name`
/// and its inner type `inner`.
pub open spec fn from_pair_text(name: Seq<char>, inner: Seq<char>) -> Seq<char> {
    "impl ::std::convert::From<"@ + name + "> for "@ + inner + " { fn from(value: "@ + name + ") -> Self { value.0 } }\n"@
        + "impl ::std::convert::From<"@ + inner + "> for "@ + name + " { fn from(value: "@ + inner
        + ") -> Self { Self(value) } }\n"@
}

/// The check that a string is at most `max` characters long, if there is
/// a bound.
pub open spec fn max_check(max: Option<usize>) -> Seq<char> {
    match max {
        Some(v) => "if value.chars().count() > "@ + decimal(v as nat) + "usize { return Err("@ + spec_quoted(
            "longer than "@ + decimal(v as nat) + " characters"@,
        ) + ".into()); } "@,
        None => Seq::empty(),
    }
}

/// The check that a string is at least `min` characters long, if there
/// is a bound.
pub open spec fn min_check(min: Option<usize>) -> Seq<char> {
    match min {
        Some(v) => "if value.chars().count() < "@ + decimal(v as nat) + "usize { return Err("@ + spec_quoted(
            "shorter than "@ + decimal(v as nat) + " characters"@,
        ) + ".into()); } "@,
        None => Seq::empty(),
    }
}

/// The check that a string matches regular expression `p`.
pub open spec fn pattern_check(p: Seq<char>) -> Seq<char> {
    "static PATTERN: ::std::sync::LazyLock<::regress::Regex> = ::std::sync::LazyLock::new(|| { ::regress::Regex::new("@
        + spec_quoted(p) + ").unwrap() }); if PATTERN.find(value).is_none() { return Err("@ + spec_quoted(
        "doesn't match pattern \""@ + p + "\""@,
    ) + ".into()); } "@
}

/// The checks of the first `n` of `ps`, each in a block of its own.
pub open spec fn pattern_blocks(ps: Seq<String>, n: int) -> Seq<char>
    decreases n,
{
    if n <= 0 {
        Seq::empty()
    } else {
        pattern_blocks(ps, n - 1) + "{ "@ + pattern_check(ps[n - 1]@) + "} "@
    }
}

/// The checks of patterns `ps`: one pattern's check as it is, several
/// each in a block so that their statics do not clash.
pub open spec fn pattern_checks(ps: Seq<String>) -> Seq<char> {
    if ps.len() == 0 {
        Seq::empty()
    } else if ps.len() == 1 {
        pattern_check(ps[0]@)
    } else {
        pattern_blocks(ps, ps.len() as int)
    }
}

/// The impls of string newtype `name` that checks a string against
/// `checks` before wrapping it, then those of the traits in `traits`
/// that such a newtype writes by hand: `Deserialize` through the checks,
/// `FromStr`, and `Display` of the inner string.
pub open spec fn string_newtype_impls(name: Seq<char>, checks: Seq<char>, traits: Set<TypespaceTrait>) -> Seq<char> {
    "impl ::std::convert::TryFrom<&str> for "@ + name
        + " { type Error = self::error::ConversionError; fn try_from(value: &str) -> ::std::result::Result<Self, self::error::ConversionError> { "@
        + checks + "Ok(Self(value.to_string())) } }\n"@ + "impl ::std::convert::TryFrom<::std::string::String> for "@
        + name
        + " { type Error = self::error::ConversionError; fn try_from(value: ::std::string::String) -> ::std::result::Result<Self, self::error::ConversionError> { ::std::convert::TryFrom::try_from(value.as_str()) } }\n"@
        + (if traits.contains(TypespaceTrait::Deserialize) {
        "impl<'de> ::serde::Deserialize<'de> for "@ + name
            + " { fn deserialize<D>(deserializer: D) -> ::std::result::Result<Self, D::Error> where D: ::serde::Deserializer<'de> { ::std::convert::TryFrom::try_from(::std::string::String::deserialize(deserializer)?).map_err(|e: self::error::ConversionError| { <D::Error as ::serde::de::Error>::custom(e.to_string()) }) } }\n"@
    } else {
        Seq::empty()
    }) + (if traits.contains(TypespaceTrait::FromStr) {
        "impl ::std::str::FromStr for "@ + name
            + " { type Err = self::error::ConversionError; fn from_str(value: &str) -> ::std::result::Result<Self, self::error::ConversionError> { ::std::convert::TryFrom::try_from(value) } }\n"@
    } else {
        Seq::empty()
    }) + (if traits.contains(TypespaceTrait::Display) {
        "impl ::std::fmt::Display for "@ + name
            + " { fn fmt(&self, f: &mut ::std::fmt::Formatter<'_>) -> ::std::fmt::Result { self.0.fmt(f) } }\n"@
    } else {
        Seq::empty()
    })
}

/// The traits a newtype under `c` derives of its traits `set`: a string
/// newtype writes `Deserialize`, `FromStr` and `Display` by hand.
pub open spec fn newtype_derived(set: Set<TypespaceTrait>, c: NewtypeConstraints) -> Set<TypespaceTrait> {
    match c {
        NewtypeConstraints::String { .. } => set.remove(TypespaceTrait::Deserialize).remove(TypespaceTrait::FromStr).remove(
            TypespaceTrait::Display,
        ),
        _ => set,
    }
}

/// The visibility of a newtype's field: public unless a constraint
/// guards the value.
pub open spec fn newtype_vis(c: NewtypeConstraints) -> Seq<char> {
    match c {
        NewtypeConstraints::String { .. } => ""@,
        _ => "pub "@,
    }
}

/// The conversions of newtype `name` over `inner` under constraint `c`,
/// with traits `traits`.
pub open spec fn newtype_conversions(name: Seq<char>, inner: Seq<char>, c: NewtypeConstraints, traits: Set<TypespaceTrait>) -> Seq<char> {
    match c {
        NewtypeConstraints::String { min, max, patterns } => string_newtype_impls(
            name,
            max_check(max) + min_check(min) + pattern_checks(patterns@),
            traits,
        ),
        _ => from_pair_text(name, inner),
    }
}

/// The item of newtype struct `id` of `m`: doc, extra attributes,
/// derives, `serde(transparent)`, the declaration (its field public only
/// when unconstrained), `Deref` to the inner type, then the conversions:
/// both ways for an unconstrained newtype, checked ones for a string
/// newtype.
pub open spec fn newtype_item_text(m: Map<u64, Type>, s: Settings, id: u64) -> Seq<char> {
    let n = m[id]->NewtypeStruct_0;
    let traits = item_traits(m, id);
    let derived = newtype_derived(traits, n.constraints);
    let name = n.common.name->0@;
    let inner = type_ident(m, s, n.inner, None, false);
    doc_attr(n.common.description) + attrs_text(s, n.common.extra_attrs@) + opt_line(
        derive_attribute(derived, s, n.common.extra_derives@),
    ) + transparent_attr(derived) + "pub struct "@ + name + "("@ + newtype_vis(n.constraints) + inner + ");\n"@
        + deref_text(name, inner) + newtype_conversions(name, inner, n.constraints, traits)
}

/// `needle` occurs in `hay` as a contiguous stretch.
pub open spec fn occurs(needle: Seq<char>, hay: Seq<char>) -> bool {
    exists|a: int| 0 <= a && a + needle.len() <= hay.len() && #[trigger] hay.subrange(a, a + needle.len()) == needle
}

/// What occurs in a text occurs in any text around it.
pub proof fn lemma_occurs_within(needle: Seq<char>, x: Seq<char>, h: Seq<char>, y: Seq<char>)
    requires
        occurs(needle, h),
    ensures
        occurs(needle, x + h + y),
        occurs(needle, x + h),
        occurs(needle, h + y),
{
    let a = choose|a: int| 0 <= a && a + needle.len() <= h.len() && #[trigger] h.subrange(a, a + needle.len()) == needle;
    let b = a + x.len();
    assert((x + h + y).subrange(b, b + needle.len()) =~= h.subrange(a, a + needle.len()));
    assert((x + h).subrange(b, b + needle.len()) =~= h.subrange(a, a + needle.len()));
    assert((h + y).subrange(a, a + needle.len()) =~= h.subrange(a, a + needle.len()));
}

/// A text occurs in itself.
pub(crate) proof fn lemma_occurs_self(t: Seq<char>)
    ensures
        occurs(t, t),
{
    assert(t.subrange(0, 0 + t.len() as int) =~= t);
}

/// What occurs in a text that occurs in another occurs in that other.
pub(crate) proof fn lemma_occurs_in_occurs(a: Seq<char>, b: Seq<char>, c: Seq<char>)
    requires
        occurs(a, b),
        occurs(b, c),
    ensures
        occurs(a, c),
{
    let i = choose|i: int| 0 <= i && i + a.len() <= b.len() && #[trigger] b.subrange(i, i + a.len()) == a;
    let j = choose|j: int| 0 <= j && j + b.len() <= c.len() && #[trigger] c.subrange(j, j + b.len()) == b;
    assert(c.subrange(i + j, i + j + a.len()) =~= b.subrange(i, i + a.len()));
}

/// Each of the first `n` patterns' checks occurs among their blocks.
proof fn lemma_pattern_blocks_occur(ps: Seq<String>, n: int, i: int)
    requires
        0 <= i < n <= ps.len(),
    ensures
        occurs(pattern_check(ps[i]@), pattern_blocks(ps, n)),
    decreases n,
{
    let c = pattern_check(ps[i]@);
    if i == n - 1 {
        lemma_occurs_self(c);
        lemma_occurs_within(c, pattern_blocks(ps, n - 1) + "{ "@, c, "} "@);
    } else {
        let d = pattern_check(ps[n - 1]@);
        lemma_pattern_blocks_occur(ps, n - 1, i);
        lemma_occurs_within(c, Seq::empty(), pattern_blocks(ps, n - 1), "{ "@);
        lemma_occurs_within(c, Seq::empty(), pattern_blocks(ps, n - 1) + "{ "@, d);
        lemma_occurs_within(c, Seq::empty(), pattern_blocks(ps, n - 1) + "{ "@ + d, "} "@);
    }
}

/// Each pattern's check occurs in the checks of all the patterns.
proof fn lemma_pattern_checks_occur(ps: Seq<String>, i: int)
    requires
        0 <= i < ps.len(),
    ensures
        occurs(pattern_check(ps[i]@), pattern_checks(ps)),
{
    if ps.len() == 1 {
        lemma_occurs_self(pattern_check(ps[0]@));
    } else {
        lemma_pattern_blocks_occur(ps, ps.len() as int, i);
    }
}

/// What occurs in the checks of a string newtype occurs in its impls.
proof fn lemma_checks_in_impls(needle: Seq<char>, name: Seq<char>, checks: Seq<char>, traits: Set<TypespaceTrait>)
    requires
        occurs(needle, checks),
    ensures
        occurs(needle, string_newtype_impls(name, checks, traits)),
{
    let p0 = "impl ::std::convert::TryFrom<&str> for "@ + name
        + " { type Error = self::error::ConversionError; fn try_from(value: &str) -> ::std::result::Result<Self, self::error::ConversionError> { "@;
    let t1 = p0 + checks;
    lemma_occurs_within(needle, p0, checks, Seq::empty());
    let t2 = t1 + "Ok(Self(value.to_string())) } }\n"@;
    lemma_occurs_within(needle, Seq::empty(), t1, "Ok(Self(value.to_string())) } }\n"@);
    let t3 = t2 + "impl ::std::convert::TryFrom<::std::string::String> for "@;
    lemma_occurs_within(needle, Seq::empty(), t2, "impl ::std::convert::TryFrom<::std::string::String> for "@);
    let t4 = t3 + name;
    lemma_occurs_within(needle, Seq::empty(), t3, name);
    let l5 = " { type Error = self::error::ConversionError; fn try_from(value: ::std::string::String) -> ::std::result::Result<Self, self::error::ConversionError> { ::std::convert::TryFrom::try_from(value.as_str()) } }\n"@;
    let t5 = t4 + l5;
    lemma_occurs_within(needle, Seq::empty(), t4, l5);
    let impls = string_newtype_impls(name, checks, traits);
    let rest = impls.subrange(t5.len() as int, impls.len() as int);
    assert(impls == t5 + rest) by {
        assert(impls.subrange(0, t5.len() as int) =~= t5);
        assert(impls =~= impls.subrange(0, t5.len() as int) + rest);
    }
    lemma_occurs_within(needle, Seq::empty(), t5, rest);
}

/// What occurs in a string newtype's checks occurs in its item.
proof fn lemma_checks_in_item(m: Map<u64, Type>, s: Settings, id: u64, needle: Seq<char>)
    requires
        m[id] is NewtypeStruct,
        m[id]->NewtypeStruct_0.constraints matches NewtypeConstraints::String { min, max, patterns } && occurs(
            needle,
            max_check(max) + min_check(min) + pattern_checks(patterns@),
        ),
    ensures
        occurs(needle, newtype_item_text(m, s, id)),
{
    let n = m[id]->NewtypeStruct_0;
    let c = n.constraints;
    let all = max_check(c->String_max) + min_check(c->String_min) + pattern_checks(c->String_patterns@);
    let name = n.common.name->0@;
    let inner = type_ident(m, s, n.inner, None, false);
    let traits = item_traits(m, id);
    lemma_checks_in_impls(needle, name, all, traits);
    let impls = string_newtype_impls(name, all, traits);
    assert(newtype_conversions(name, inner, c, traits) == impls);
    let text = newtype_item_text(m, s, id);
    let head = text.subrange(0, text.len() - impls.len());
    assert(text == head + impls) by {
        assert(text.subrange(text.len() - impls.len(), text.len() as int) =~= impls);
        assert(text =~= head + text.subrange(text.len() - impls.len(), text.len() as int));
    }
    lemma_occurs_within(needle, head, impls, Seq::empty());
}

/// A string newtype checks every one of its patterns: for each pattern,
/// the check that a string matches it, compiling that pattern and failing
/// with an error naming it, stands in the newtype's item, whatever the
/// other patterns are.
pub proof fn law_newtype_checks_every_pattern(m: Map<u64, Type>, s: Settings, id: u64, i: int)
    requires
        m[id] is NewtypeStruct,
        m[id]->NewtypeStruct_0.constraints matches NewtypeConstraints::String { patterns, .. } && 0 <= i < patterns@.len(),
    ensures
        occurs(pattern_check(m[id]->NewtypeStruct_0.constraints->String_patterns@[i]@), newtype_item_text(m, s, id)),
        occurs(spec_quoted(m[id]->NewtypeStruct_0.constraints->String_patterns@[i]@), newtype_item_text(m, s, id)),
{
    let c = m[id]->NewtypeStruct_0.constraints;
    let ps = c->String_patterns@;
    let p = ps[i]@;
    let check = pattern_check(p);
    let pre = max_check(c->String_max) + min_check(c->String_min);
    lemma_pattern_checks_occur(ps, i);
    lemma_occurs_within(check, pre, pattern_checks(ps), Seq::empty());
    lemma_checks_in_item(m, s, id, check);
    let l1 = "static PATTERN: ::std::sync::LazyLock<::regress::Regex> = ::std::sync::LazyLock::new(|| { ::regress::Regex::new("@;
    lemma_occurs_self(spec_quoted(p));
    lemma_occurs_within(spec_quoted(p), l1, spec_quoted(p), Seq::empty());
    let rest = check.subrange((l1 + spec_quoted(p)).len() as int, check.len() as int);
    assert(check == l1 + spec_quoted(p) + rest) by {
        assert(check.subrange(0, (l1 + spec_quoted(p)).len() as int) =~= l1 + spec_quoted(p));
        assert(check =~= check.subrange(0, (l1 + spec_quoted(p)).len() as int) + rest);
    }
    lemma_occurs_within(spec_quoted(p), l1, spec_quoted(p), rest);
    lemma_occurs_in_occurs(spec_quoted(p), check, newtype_item_text(m, s, id));
}

/// Each field of a list stands in the field list.
proof fn lemma_field_list_occurs(m: Map<u64, Type>, s: Settings, ids: Seq<u64>, i: int)
    requires
        0 <= i < ids.len(),
    ensures
        occurs("pub "@ + type_ident(m, s, ids[i], None, false) + ", "@, field_list(m, s, ids)),
    decreases ids.len(),
{
    let needle = "pub "@ + type_ident(m, s, ids[i], None, false) + ", "@;
    let head = field_list(m, s, ids.drop_last());
    let last = "pub "@ + type_ident(m, s, ids.last(), None, false) + ", "@;
    assert(field_list(m, s, ids) =~= head + last);
    if i == ids.len() - 1 {
        lemma_occurs_self(needle);
        lemma_occurs_within(needle, head, needle, Seq::empty());
        assert(head + needle + Seq::<char>::empty() =~= head + last);
    } else {
        assert(ids.drop_last()[i] == ids[i]);
        lemma_field_list_occurs(m, s, ids.drop_last(), i);
        lemma_occurs_within(needle, Seq::empty(), head, last);
        assert(Seq::<char>::empty() + head + last =~= head + last);
    }
}

/// Each of the first `n` fields has its serialization statement.
proof fn lemma_ser_lines_occur(n: nat, i: nat)
    requires
        i < n,
    ensures
        occurs("seq.serialize_element(&self."@ + decimal(i) + ")?; "@, ser_lines(n)),
    decreases n,
{
    let needle = "seq.serialize_element(&self."@ + decimal(i) + ")?; "@;
    let head = ser_lines((n - 1) as nat);
    let last = "seq.serialize_element(&self."@ + decimal((n - 1) as nat) + ")?; "@;
    assert(ser_lines(n) =~= head + last);
    if i == n - 1 {
        lemma_occurs_self(needle);
        lemma_occurs_within(needle, head, needle, Seq::empty());
        assert(head + needle + Seq::<char>::empty() =~= head + last);
    } else {
        lemma_ser_lines_occur((n - 1) as nat, i);
        lemma_occurs_within(needle, Seq::empty(), head, last);
        assert(Seq::<char>::empty() + head + last =~= head + last);
    }
}

/// A tuple struct declares every one of its fields, positional and rest,
/// as a public field of its type, in the struct's item; and when it
/// implements `Serialize`, the impl writes every positional field.
pub proof fn law_tuple_struct_fields(m: Map<u64, Type>, s: Settings, id: u64, i: int)
    requires
        m[id] is TupleStruct,
        0 <= i < crate::build::tuple_struct_ids(m[id]->TupleStruct_0).len(),
    ensures
        occurs(
            "pub "@ + type_ident(m, s, crate::build::tuple_struct_ids(m[id]->TupleStruct_0)[i], None, false) + ", "@,
            tuple_struct_item_text(m, s, id),
        ),
        item_traits(m, id).contains(TypespaceTrait::Serialize) && i < m[id]->TupleStruct_0.fields@.len() ==> occurs(
            "seq.serialize_element(&self."@ + decimal(i as nat) + ")?; "@,
            tuple_struct_item_text(m, s, id),
        ),
{
    let t = m[id]->TupleStruct_0;
    let ids = crate::build::tuple_struct_ids(t);
    let traits = item_traits(m, id);
    let name = t.common.name->0@;
    let n = t.fields@.len();
    let rest = t.rest is Some;
    let fl = field_list(m, s, ids);
    let x = doc_attr(t.common.description) + attrs_text(s, t.common.extra_attrs@) + opt_line(
        derive_attribute(without_serde(traits), s, t.common.extra_derives@),
    ) + "pub struct "@ + name + "("@;
    let ser = if traits.contains(TypespaceTrait::Serialize) {
        tuple_ser_text(name, n, rest)
    } else {
        Seq::empty()
    };
    let de = if traits.contains(TypespaceTrait::Deserialize) {
        tuple_de_text(name, n, rest)
    } else {
        Seq::empty()
    };
    let text = tuple_struct_item_text(m, s, id);
    assert(text =~= x + fl + (");\n"@ + ser + de));
    lemma_field_list_occurs(m, s, ids, i);
    lemma_occurs_within("pub "@ + type_ident(m, s, ids[i], None, false) + ", "@, x, fl, ");\n"@ + ser + de);
    if traits.contains(TypespaceTrait::Serialize) && i < n {
        let needle = "seq.serialize_element(&self."@ + decimal(i as nat) + ")?; "@;
        lemma_ser_lines_occur(n, i as nat);
        let pre = "impl ::serde::Serialize for "@ + name
            + " { fn serialize<S>(&self, serializer: S) -> Result<S::Ok, S::Error> where S: ::serde::Serializer { use ::serde::ser::SerializeSeq; let mut seq = serializer.serialize_seq(None)?; "@;
        let post = (if rest {
            "self."@ + decimal(n) + ".serialize(::json_serde::FlattenedSequenceSerializer::new(&mut seq))?; "@
        } else {
            Seq::empty()
        }) + "seq.end() } }\n"@;
        assert(ser =~= pre + ser_lines(n) + post);
        lemma_occurs_within(needle, pre, ser_lines(n), post);
        assert(text =~= (x + fl + ");\n"@) + ser + de);
        lemma_occurs_within(needle, x + fl + ");\n"@, ser, de);
    }
}

/// A unit struct's `serde` impls are about its representation: the
/// `Serialize` impl serializes the value its representation builds, and
/// the `Deserialize` impl names its representation's JSON text when it
/// refuses another value.
pub proof fn law_unit_struct_repr(m: Map<u64, Type>, s: Settings, id: u64)
    requires
        m[id] is UnitStruct,
    ensures
        item_traits(m, id).contains(TypespaceTrait::Serialize) ==> occurs(
            value_expr_text(json_of(m[id]->UnitStruct_0.repr)) + ".serialize(serializer) } }\n"@,
            unit_struct_item_text(m, s, id),
        ),
        item_traits(m, id).contains(TypespaceTrait::Deserialize) ==> occurs(
            spec_quoted(json_text(json_of(m[id]->UnitStruct_0.repr))),
            unit_struct_item_text(m, s, id),
        ),
{
    let u = m[id]->UnitStruct_0;
    let traits = item_traits(m, id);
    let name = u.common.name->0@;
    let repr = value_expr_text(json_of(u.repr));
    let x = doc_attr(u.common.description) + opt_line(derive_attribute(without_serde(traits), s, u.common.extra_derives@))
        + attrs_text(s, u.common.extra_attrs@) + "pub struct "@ + name + ";\n"@;
    let ser = if traits.contains(TypespaceTrait::Serialize) {
        unit_ser_text(name, repr)
    } else {
        Seq::empty()
    };
    let de = if traits.contains(TypespaceTrait::Deserialize) {
        unit_de_text(name, repr, json_text(json_of(u.repr)))
    } else {
        Seq::empty()
    };
    let text = unit_struct_item_text(m, s, id);
    assert(text =~= x + ser + de);
    if traits.contains(TypespaceTrait::Serialize) {
        let needle = repr + ".serialize(serializer) } }\n"@;
        let pre = "impl ::serde::Serialize for "@ + name
            + " { fn serialize<S>(&self, serializer: S) -> Result<S::Ok, S::Error> where S: ::serde::Serializer { "@;
        assert(ser =~= pre + needle);
        lemma_occurs_self(needle);
        lemma_occurs_within(needle, pre, needle, Seq::empty());
        assert(pre + needle + Seq::<char>::empty() =~= ser);
        lemma_occurs_within(needle, x, ser, de);
    }
    if traits.contains(TypespaceTrait::Deserialize) {
        let q = spec_quoted(json_text(json_of(u.repr)));
        let pre = "impl<'de> ::serde::Deserialize<'de> for "@ + name
            + " { fn deserialize<D>(deserializer: D) -> Result<Self, D::Error> where D: ::serde::Deserializer<'de> { let expected = "@
            + repr
            + "; let value: serde_json::Value = ::serde::Deserialize::deserialize(deserializer)?; if value != expected { return Err(::serde::de::Error::custom(format!(\"expected unit struct value {}, found {}\", "@;
        let post = ", ::serde_json::to_string(&value).unwrap()))); } Ok("@ + name + ") } }\n"@;
        assert(de =~= pre + q + post);
        lemma_occurs_self(q);
        lemma_occurs_within(q, pre, q, post);
        lemma_occurs_within(q, x + ser, de, Seq::empty());
        assert(x + ser + de + Seq::<char>::empty() =~= text);
    }
}

/// A string newtype checks each length bound it has: the check that a
/// string is at most `max` characters, and the one that it is at least
/// `min`, stand in its item.
pub proof fn law_newtype_checks_bounds(m: Map<u64, Type>, s: Settings, id: u64)
    requires
        m[id] is NewtypeStruct,
        m[id]->NewtypeStruct_0.constraints is String,
    ensures
        occurs(max_check(m[id]->NewtypeStruct_0.constraints->String_max), newtype_item_text(m, s, id)),
        occurs(min_check(m[id]->NewtypeStruct_0.constraints->String_min), newtype_item_text(m, s, id)),
{
    let c = m[id]->NewtypeStruct_0.constraints;
    let a = max_check(c->String_max);
    let b = min_check(c->String_min);
    let p = pattern_checks(c->String_patterns@);
    lemma_occurs_self(a);
    lemma_occurs_within(a, Seq::empty(), a, b + p);
    assert(Seq::<char>::empty() + a + (b + p) =~= a + b + p);
    lemma_checks_in_item(m, s, id, a);
    lemma_occurs_self(b);
    lemma_occurs_within(b, a, b, p);
    lemma_checks_in_item(m, s, id, b);
}

/// An unconstrained newtype converts both ways between itself and what
/// it wraps.
pub proof fn law_newtype_unconstrained_converts(m: Map<u64, Type>, s: Settings, id: u64)
    requires
        m[id] is NewtypeStruct,
        !(m[id]->NewtypeStruct_0.constraints is String),
    ensures
        occurs(
            from_pair_text(m[id]->NewtypeStruct_0.common.name->0@, type_ident(m, s, m[id]->NewtypeStruct_0.inner, None, false)),
            newtype_item_text(m, s, id),
        ),
{
    let n = m[id]->NewtypeStruct_0;
    let t = from_pair_text(n.common.name->0@, type_ident(m, s, n.inner, None, false));
    let text = newtype_item_text(m, s, id);
    let head = text.subrange(0, text.len() - t.len());
    assert(text == head + t) by {
        assert(text.subrange(text.len() - t.len(), text.len() as int) =~= t);
        assert(text =~= head + text.subrange(text.len() - t.len(), text.len() as int));
    }
    lemma_occurs_self(t);
    lemma_occurs_within(t, head, t, Seq::empty());
    assert(head + t + Seq::<char>::empty() =~= text);
}

/// Append each of `parts` to `out`, which holds the lines of `before`.
fn append_lines(out: &mut String, parts: &Vec<String>, Ghost(before): Ghost<Seq<Seq<char>>>)
    requires
        old(out)@ == lines(before),
    ensures
        final(out)@ == lines(before + texts(parts@)),
{
    let mut i: usize = 0;
    while i < parts.len()
        invariant
            i <= parts@.len(),
            out@ == lines(before + texts(parts@.take(i as int))),
        decreases parts@.len() - i,
    {
        proof {
            let acc = before + texts(parts@.take(i as int));
            assert(before + texts(parts@.take(i + 1)) =~= acc.push(parts@[i as int]@));
            assert(acc.push(parts@[i as int]@).drop_last() =~= acc);
        }
        out.append(parts[i].as_str());
        out.append("\n");
        i = i + 1;
    }
    proof {
        assert(parts@.take(parts@.len() as int) =~= parts@);
    }
}

/// The extra attributes of a type with extra attributes `extra`: what
/// [`attrs_text`] says.
fn attrs_block(settings: &Settings, extra: &Vec<String>) -> (r: String)
    ensures
        r@ == attrs_text(*settings, extra@),
{
    let mut out = String::new();
    proof {
        assert(Seq::<Seq<char>>::empty() + texts(settings.extra_attrs@) =~= texts(settings.extra_attrs@));
        assert(out@ =~= lines(Seq::<Seq<char>>::empty()));
    }
    append_lines(&mut out, &settings.extra_attrs, Ghost(Seq::empty()));
    append_lines(&mut out, extra, Ghost(texts(settings.extra_attrs@)));
    out
}

/// The derive attribute of a type, on a line of its own, if it has one.
fn derive_line(traits: &TypespaceTraitSet, settings: &Settings, extra: &Vec<String>) -> (r: String)
    requires
        !traits@.contains(TypespaceTrait::Display),
        !traits@.contains(TypespaceTrait::FromStr),
    ensures
        r@ == opt_line(derive_attribute(traits@, *settings, extra@)),
{
    match render_derives(traits, settings, extra) {
        Some(t) => t.concat("\n"),
        None => String::new(),
    }
}

/// The doc attribute of a description: what [`doc_attr`] says.
fn doc_block(desc: &Option<String>) -> (r: String)
    ensures
        r@ == doc_attr(*desc),
{
    match desc {
        Some(d) => "#[doc = ".to_owned().concat(quoted(d.as_str()).as_str()).concat("]\n"),
        None => String::new(),
    }
}

/// The item of unit struct `id` of `types`: what
/// [`unit_struct_item_text`] says.
pub fn render_unit_struct(types: &BTreeMap<u64, Type>, settings: &Settings, id: u64) -> (r: String)
    requires
        renderable(types@, id),
        types@[id] is UnitStruct,
    ensures
        r@ == unit_struct_item_text(types@, *settings, id),
{
    proof {
        lemma_u64_key_order();
    }
    match types.get(&id).unwrap() {
        Type::UnitStruct(u) => {
            let mut traits = match &u.common.built {
                Some(b) => b.traits,
                None => TypespaceTraitSet::empty(),
            };
            let ser = traits.remove(TypespaceTrait::Serialize);
            let de = traits.remove(TypespaceTrait::Deserialize);
            let name = u.common.built_name();
            let repr = value_expr(&u.repr);
            let mut out = doc_block(&u.common.description);
            out.append(derive_line(&traits, settings, &u.common.extra_derives).as_str());
            out.append(attrs_block(settings, &u.common.extra_attrs).as_str());
            out.append("pub struct ");
            out.append(name);
            out.append(";\n");
            if ser {
                out.append("impl ::serde::Serialize for ");
                out.append(name);
                out.append(" { fn serialize<S>(&self, serializer: S) -> Result<S::Ok, S::Error> where S: ::serde::Serializer { ");
                out.append(repr.as_str());
                out.append(".serialize(serializer) } }\n");
            }
            if de {
                let json = json_value_text(&u.repr);
                out.append("impl<'de> ::serde::Deserialize<'de> for ");
                out.append(name);
                out.append(" { fn deserialize<D>(deserializer: D) -> Result<Self, D::Error> where D: ::serde::Deserializer<'de> { let expected = ");
                out.append(repr.as_str());
                out.append("; let value: serde_json::Value = ::serde::Deserialize::deserialize(deserializer)?; if value != expected { return Err(::serde::de::Error::custom(format!(\"expected unit struct value {}, found {}\", ");
                out.append(quoted(json.as_str()).as_str());
                out.append(", ::serde_json::to_string(&value).unwrap()))); } Ok(");
                out.append(name);
                out.append(") } }\n");
            }
            out
        },
        _ => String::new(),
    }
}

/// The public fields of a tuple struct: what [`field_list`] says.
fn field_block(types: &BTreeMap<u64, Type>, settings: &Settings, fields: &Vec<u64>) -> (r: String)
    requires
        forall|i: int| 0 <= i < fields@.len() ==> nameable(types@, *settings, #[trigger] fields@[i], None, false),
    ensures
        r@ == field_list(types@, *settings, fields@),
{
    let mut out = String::new();
    let mut i: usize = 0;
    while i < fields.len()
        invariant
            i <= fields@.len(),
            forall|i: int| 0 <= i < fields@.len() ==> nameable(types@, *settings, #[trigger] fields@[i], None, false),
            out@ == field_list(types@, *settings, fields@.take(i as int)),
        decreases fields@.len() - i,
    {
        proof {
            assert(fields@.take(i + 1).drop_last() =~= fields@.take(i as int));
        }
        let ident = type_ident_text(types, settings, fields[i], None, false);
        out.append("pub ");
        out.append(ident.as_str());
        out.append(", ");
        i = i + 1;
    }
    proof {
        assert(fields@.take(fields@.len() as int) =~= fields@);
    }
    out
}

/// The statements serializing the first `n` positional fields: what
/// [`ser_lines`] says.
fn ser_block(n: usize) -> (r: String)
    ensures
        r@ == ser_lines(n as nat),
{
    let mut out = String::new();
    let mut i: usize = 0;
    while i < n
        invariant
            i <= n,
            out@ == ser_lines(i as nat),
        decreases n - i,
    {
        out.append("seq.serialize_element(&self.");
        out.append(decimal_text(i).as_str());
        out.append(")?; ");
        i = i + 1;
    }
    out
}

/// The statements reading the first `n` positional fields: what
/// [`de_lines`] says.
fn de_block(n: usize, expected: &str) -> (r: String)
    ensures
        r@ == de_lines(n as nat, expected@),
{
    let mut out = String::new();
    let mut i: usize = 0;
    while i < n
        invariant
            i <= n,
            out@ == de_lines(i as nat, expected@),
        decreases n - i,
    {
        let index = decimal_text(i);
        out.append("let field_");
        out.append(index.as_str());
        out.append(" = seq.next_element()?.ok_or_else(|| ::serde::de::Error::invalid_length(");
        out.append(index.as_str());
        out.append("usize, &");
        out.append(expected);
        out.append("))?; ");
        i = i + 1;
    }
    out
}

/// The variables holding the first `n` positional fields: what
/// [`field_vars`] says.
fn vars_block(n: usize) -> (r: String)
    ensures
        r@ == field_vars(n as nat),
{
    let mut out = String::new();
    let mut i: usize = 0;
    while i < n
        invariant
            i <= n,
            out@ == field_vars(i as nat),
        decreases n - i,
    {
        out.append("field_");
        out.append(decimal_text(i).as_str());
        out.append(", ");
        i = i + 1;
    }
    out
}

/// The `Serialize` impl of a tuple struct: what [`tuple_ser_text`] says.
fn tuple_ser_block(name: &str, n: usize, has_rest: bool) -> (r: String)
    ensures
        r@ == tuple_ser_text(name@, n as nat, has_rest),
{
    let mut out = "impl ::serde::Serialize for ".to_owned();
    out.append(name);
    out.append(" { fn serialize<S>(&self, serializer: S) -> Result<S::Ok, S::Error> where S: ::serde::Serializer { use ::serde::ser::SerializeSeq; let mut seq = serializer.serialize_seq(None)?; ");
    out.append(ser_block(n).as_str());
    if has_rest {
        out.append("self.");
        out.append(decimal_text(n).as_str());
        out.append(".serialize(::json_serde::FlattenedSequenceSerializer::new(&mut seq))?; ");
    }
    out.append("seq.end() } }\n");
    out
}

/// The `Deserialize` impl of a tuple struct: what [`tuple_de_text`] says.
fn tuple_de_block(name: &str, n: usize, has_rest: bool) -> (r: String)
    ensures
        r@ == tuple_de_text(name@, n as nat, has_rest),
{
    let expected = "a tuple of size ".to_owned().concat(decimal_text(n).as_str()).concat(" or more");
    let literal = quoted(expected.as_str());
    let mut out = "impl<'de> ::serde::Deserialize<'de> for ".to_owned();
    out.append(name);
    out.append(" { fn deserialize<D>(deserializer: D) -> Result<Self, D::Error> where D: ::serde::Deserializer<'de> { struct Visitor; impl<'de> ::serde::de::Visitor<'de> for Visitor { type Value = ");
    out.append(name);
    out.append("; fn expecting(&self, formatter: &mut ::std::fmt::Formatter) -> ::std::fmt::Result { formatter.write_str(\"a sequence\") } fn visit_seq<A>(self, mut seq: A) -> Result<Self::Value, A::Error> where A: ::serde::de::SeqAccess<'de> { ");
    out.append(de_block(n, literal.as_str()).as_str());
    if has_rest {
        out.append("let rest = ::serde::Deserialize::deserialize(::json_serde::FlattenedSequenceDeserializer::new(&mut seq))?; ");
    }
    out.append("Ok(");
    out.append(name);
    out.append("(");
    out.append(vars_block(n).as_str());
    if has_rest {
        out.append("rest, ");
    }
    out.append(")) } } deserializer.deserialize_seq(Visitor) } }\n");
    out
}

/// The item of tuple struct `id` of `types`: what
/// [`tuple_struct_item_text`] says.
pub fn render_tuple_struct(types: &BTreeMap<u64, Type>, settings: &Settings, id: u64) -> (r: String)
    requires
        renderable(types@, id),
        types@[id] is TupleStruct,
        forall|i: int|
            0 <= i < crate::build::tuple_struct_ids(types@[id]->TupleStruct_0).len() ==> nameable(
                types@,
                *settings,
                #[trigger] crate::build::tuple_struct_ids(types@[id]->TupleStruct_0)[i],
                None,
                false,
            ),
    ensures
        r@ == tuple_struct_item_text(types@, *settings, id),
{
    proof {
        lemma_u64_key_order();
    }
    match types.get(&id).unwrap() {
        Type::TupleStruct(t) => {
            let ghost ids = crate::build::tuple_struct_ids(*t);
            proof {
                assert forall|i: int| 0 <= i < t.fields@.len() implies nameable(types@, *settings, #[trigger] t.fields@[i], None, false) by {
                    assert(ids[i] == t.fields@[i]);
                }
            }
            let mut traits = match &t.common.built {
                Some(b) => b.traits,
                None => TypespaceTraitSet::empty(),
            };
            let ser = traits.remove(TypespaceTrait::Serialize);
            let de = traits.remove(TypespaceTrait::Deserialize);
            let name = t.common.built_name();
            let n = t.fields.len();
            let mut out = doc_block(&t.common.description);
            out.append(attrs_block(settings, &t.common.extra_attrs).as_str());
            out.append(derive_line(&traits, settings, &t.common.extra_derives).as_str());
            out.append("pub struct ");
            out.append(name);
            out.append("(");
            out.append(field_block(types, settings, &t.fields).as_str());
            match t.rest {
                Some(rest) => {
                    proof {
                        assert(ids[t.fields@.len() as int] == rest);
                        assert(ids.drop_last() =~= t.fields@);
                    }
                    out.append("pub ");
                    out.append(type_ident_text(types, settings, rest, None, false).as_str());
                    out.append(", ");
                },
                None => {},
            }
            out.append(");\n");
            let has_rest = t.rest.is_some();
            if ser {
                out.append(tuple_ser_block(name, n, has_rest).as_str());
            }
            if de {
                out.append(tuple_de_block(name, n, has_rest).as_str());
            }
            out
        },
        _ => String::new(),
    }
}

/// What [`transparent_attr`] says.
fn transparent_block(traits: &TypespaceTraitSet) -> (r: String)
    ensures
        r@ == transparent_attr(traits@),
{
    if traits.contains(&TypespaceTrait::Serialize) || traits.contains(&TypespaceTrait::Deserialize) {
        "#[serde(transparent)]\n".to_owned()
    } else if traits.contains(&TypespaceTrait::JsonSchema) {
        "#[schemars(transparent)]\n".to_owned()
    } else {
        String::new()
    }
}

/// What [`deref_text`] says.
fn deref_block(name: &str, inner: &str) -> (r: String)
    ensures
        r@ == deref_text(name@, inner@),
{
    "impl ::std::ops::Deref for ".to_owned().concat(name).concat(" { type Target = ").concat(inner).concat(
        "; fn deref(&self) -> &",
    ).concat(inner).concat(" { &self.0 } }\n")
}

/// What [`from_pair_text`] says.
fn from_pair_block(name: &str, inner: &str) -> (r: String)
    ensures
        r@ == from_pair_text(name@, inner@),
{
    let mut out = "impl ::std::convert::From<".to_owned();
    out.append(name);
    out.append("> for ");
    out.append(inner);
    out.append(" { fn from(value: ");
    out.append(name);
    out.append(") -> Self { value.0 } }\n");
    out.append("impl ::std::convert::From<");
    out.append(inner);
    out.append("> for ");
    out.append(name);
    out.append(" { fn from(value: ");
    out.append(inner);
    out.append(") -> Self { Self(value) } }\n");
    out
}

/// What [`max_check`] says.
fn max_block(max: Option<usize>) -> (r: String)
    ensures
        r@ == max_check(max),
{
    match max {
        Some(v) => {
            let d = decimal_text(v);
            let message = "longer than ".to_owned().concat(d.as_str()).concat(" characters");
            "if value.chars().count() > ".to_owned().concat(d.as_str()).concat("usize { return Err(").concat(
                quoted(message.as_str()).as_str(),
            ).concat(".into()); } ")
        },
        None => String::new(),
    }
}

/// What [`min_check`] says.
fn min_block(min: Option<usize>) -> (r: String)
    ensures
        r@ == min_check(min),
{
    match min {
        Some(v) => {
            let d = decimal_text(v);
            let message = "shorter than ".to_owned().concat(d.as_str()).concat(" characters");
            "if value.chars().count() < ".to_owned().concat(d.as_str()).concat("usize { return Err(").concat(
                quoted(message.as_str()).as_str(),
            ).concat(".into()); } ")
        },
        None => String::new(),
    }
}

/// What [`pattern_check`] says.
fn pattern_block(p: &str) -> (r: String)
    ensures
        r@ == pattern_check(p@),
{
    let message = "doesn't match pattern \"".to_owned().concat(p).concat("\"");
    let mut out = "static PATTERN: ::std::sync::LazyLock<::regress::Regex> = ::std::sync::LazyLock::new(|| { ::regress::Regex::new(".to_owned();
    out.append(quoted(p).as_str());
    out.append(").unwrap() }); if PATTERN.find(value).is_none() { return Err(");
    out.append(quoted(message.as_str()).as_str());
    out.append(".into()); } ");
    out
}

/// What [`pattern_checks`] says.
fn pattern_checks_block(ps: &Vec<String>) -> (r: String)
    ensures
        r@ == pattern_checks(ps@),
{
    if ps.len() == 0 {
        return String::new();
    }
    if ps.len() == 1 {
        return pattern_block(ps[0].as_str());
    }
    let mut out = String::new();
    let mut i: usize = 0;
    while i < ps.len()
        invariant
            i <= ps@.len(),
            out@ == pattern_blocks(ps@, i as int),
        decreases ps@.len() - i,
    {
        out.append("{ ");
        out.append(pattern_block(ps[i].as_str()).as_str());
        out.append("} ");
        i = i + 1;
    }
    out
}

/// What [`string_newtype_impls`] says.
fn string_impls_block(name: &str, checks: &str, traits: &TypespaceTraitSet) -> (r: String)
    ensures
        r@ == string_newtype_impls(name@, checks@, traits@),
{
    let mut out = "impl ::std::convert::TryFrom<&str> for ".to_owned();
    out.append(name);
    out.append(" { type Error = self::error::ConversionError; fn try_from(value: &str) -> ::std::result::Result<Self, self::error::ConversionError> { ");
    out.append(checks);
    out.append("Ok(Self(value.to_string())) } }\n");
    out.append("impl ::std::convert::TryFrom<::std::string::String> for ");
    out.append(name);
    out.append(" { type Error = self::error::ConversionError; fn try_from(value: ::std::string::String) -> ::std::result::Result<Self, self::error::ConversionError> { ::std::convert::TryFrom::try_from(value.as_str()) } }\n");
    if traits.contains(&TypespaceTrait::Deserialize) {
        out.append("impl<'de> ::serde::Deserialize<'de> for ");
        out.append(name);
        out.append(" { fn deserialize<D>(deserializer: D) -> ::std::result::Result<Self, D::Error> where D: ::serde::Deserializer<'de> { ::std::convert::TryFrom::try_from(::std::string::String::deserialize(deserializer)?).map_err(|e: self::error::ConversionError| { <D::Error as ::serde::de::Error>::custom(e.to_string()) }) } }\n");
    }
    if traits.contains(&TypespaceTrait::FromStr) {
        out.append("impl ::std::str::FromStr for ");
        out.append(name);
        out.append(" { type Err = self::error::ConversionError; fn from_str(value: &str) -> ::std::result::Result<Self, self::error::ConversionError> { ::std::convert::TryFrom::try_from(value) } }\n");
    }
    if traits.contains(&TypespaceTrait::Display) {
        out.append("impl ::std::fmt::Display for ");
        out.append(name);
        out.append(" { fn fmt(&self, f: &mut ::std::fmt::Formatter<'_>) -> ::std::fmt::Result { self.0.fmt(f) } }\n");
    }
    out
}

/// The item of newtype struct `id` of `types`: what
/// [`newtype_item_text`] says. Only an unconstrained newtype and a
/// string newtype can be written.
pub fn render_newtype_struct(types: &BTreeMap<u64, Type>, settings: &Settings, id: u64) -> (r: String)
    requires
        types@.contains_key(id),
        types@[id] is NewtypeStruct,
        types@[id]->NewtypeStruct_0.common.name is Some,
        types@[id].built_of() is Some,
        types@[id]->NewtypeStruct_0.constraints is Unconstrained || types@[id]->NewtypeStruct_0.constraints is String,
        !newtype_derived(item_traits(types@, id), types@[id]->NewtypeStruct_0.constraints).contains(TypespaceTrait::Display),
        !newtype_derived(item_traits(types@, id), types@[id]->NewtypeStruct_0.constraints).contains(TypespaceTrait::FromStr),
        nameable(types@, *settings, types@[id]->NewtypeStruct_0.inner, None, false),
    ensures
        r@ == newtype_item_text(types@, *settings, id),
{
    proof {
        lemma_u64_key_order();
    }
    match types.get(&id).unwrap() {
        Type::NewtypeStruct(n) => {
            let traits = match &n.common.built {
                Some(b) => b.traits,
                None => TypespaceTraitSet::empty(),
            };
            let mut derived = traits;
            let conversions;
            let name = n.common.built_name();
            let inner = type_ident_text(types, settings, n.inner, None, false);
            let vis;
            match &n.constraints {
                NewtypeConstraints::String { min, max, patterns } => {
                    derived.remove(TypespaceTrait::Deserialize);
                    derived.remove(TypespaceTrait::FromStr);
                    derived.remove(TypespaceTrait::Display);
                    let checks = max_block(*max).concat(min_block(*min).as_str()).concat(pattern_checks_block(patterns).as_str());
                    conversions = string_impls_block(name, checks.as_str(), &traits);
                    vis = "";
                    proof {
                        assert(derived@ =~= newtype_derived(traits@, n.constraints));
                        assert(conversions@ == newtype_conversions(name@, inner@, n.constraints, traits@));
                        assert(vis@ == newtype_vis(n.constraints));
                    }
                },
                _ => {
                    conversions = from_pair_block(name, inner.as_str());
                    vis = "pub ";
                    proof {
                        assert(derived@ =~= newtype_derived(traits@, n.constraints));
                        assert(conversions@ == newtype_conversions(name@, inner@, n.constraints, traits@));
                        assert(vis@ == newtype_vis(n.constraints));
                    }
                },
            }
            let mut out = doc_block(&n.common.description);
            out.append(attrs_block(settings, &n.common.extra_attrs).as_str());
            out.append(derive_line(&derived, settings, &n.common.extra_derives).as_str());
            out.append(transparent_block(&derived).as_str());
            out.append("pub struct ");
            out.append(name);
            out.append("(");
            out.append(vis);
            out.append(inner.as_str());
            out.append(");\n");
            out.append(deref_block(name, inner.as_str()).as_str());
            out.append(conversions.as_str());
            proof {
                assert(traits@ == item_traits(types@, id));
                assert(out@ =~= newtype_item_text(types@, *settings, id));
            }
            out
        },
        _ => String::new(),
    }
}

} // verus!
