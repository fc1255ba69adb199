use typespace::build::alias::TypeAlias;
use typespace::build::enums::{Enum, EnumTagType, EnumVariant, VariantDetails};
use typespace::build::structs::{NewtypeConstraints, NewtypeStruct, Struct, StructProperty, TupleStruct, UnitStruct};
use typespace::defaults::DefaultHelper;
use typespace::build::Type;
use typespace::finalize::{no_cycles, TypespaceBuilder};
use typespace::error::Error;
use typespace::json::{JsonMember, JsonNumber, JsonValue};
use typespace::json_text::{json_value_text, value_expr};
use typespace::render::render_derives;
use typespace::settings::{Settings, Std};
use typespace::{TypespaceTrait, TypespaceTraitSet};

fn builder(settings: Settings) -> TypespaceBuilder {
    let mut b = TypespaceBuilder::new(settings);
    b.insert(1, Type::String).unwrap();
    b.insert(2, Type::Option(1)).unwrap();
    b.insert(3, Type::Integer("u32".to_string())).unwrap();
    b.insert(4, Type::MapOf(1, 3)).unwrap();
    b.insert(5, Struct::new().name("Thing").properties(vec![StructProperty::new("n", 3)]).build().unwrap()).unwrap();
    b.insert(6, Type::Vec(5)).unwrap();
    b.insert(7, Type::Array(3, 4)).unwrap();
    b.insert(8, Type::Tuple(vec![3, 5])).unwrap();
    b.insert(9, Type::JsonValue).unwrap();
    b.insert(10, Type::MapOf(1, 9)).unwrap();
    b
}

#[test]
fn ident_spells_types_fully_qualified() {
    let b = builder(Settings::minimal());
    assert_eq!(b.ident(2), "::std::option::Option<::std::string::String>");
    assert_eq!(b.ident(4), "::std::collections::BTreeMap<::std::string::String, u32>");
    assert_eq!(b.ident(6), "::std::vec::Vec<Thing>");
    assert_eq!(b.ident_in(6, "super"), "::std::vec::Vec<super::Thing>");
    assert_eq!(b.ident(7), "[u32; 4usize]");
    assert_eq!(b.ident(8), "(u32, Thing)");
    assert_eq!(b.ident(10), "::serde_json::Map<::std::string::String, ::serde_json::Value>");
}

#[test]
fn ident_spells_prelude_types_unqualified() {
    let b = builder(Settings::minimal().with_std(Std::Unqualified));
    assert_eq!(b.ident(2), "Option<String>");
    assert_eq!(b.ident(6), "Vec<Thing>");
}

#[test]
fn parameter_ident_borrows_complex_types() {
    let b = builder(Settings::minimal());
    assert_eq!(b.parameter_ident(3), "u32");
    assert_eq!(b.parameter_ident(2), "::std::option::Option<::std::string::String>");
    assert_eq!(b.parameter_ident(1), "&::std::string::String");
    assert_eq!(b.parameter_ident_in(5, "super"), "&super::Thing");
}

#[test]
fn derives_list_traits_then_extra_derives() {
    let mut traits = TypespaceTraitSet::empty();
    traits.add(TypespaceTrait::Debug);
    traits.add(TypespaceTrait::Serialize);
    traits.add(TypespaceTrait::Clone);
    let settings = Settings::minimal().with_derive("::my::Global");
    assert_eq!(
        render_derives(&traits, &settings, &vec!["Local".to_string()]),
        Some("#[derive(::serde::Serialize, Clone, Debug, ::my::Global, Local)]".to_string())
    );
    assert_eq!(render_derives(&TypespaceTraitSet::empty(), &Settings::minimal(), &vec![]), None);
    assert_eq!(TypespaceTraitSet::default(), TypespaceTraitSet::empty());
}

#[test]
fn alias_renders_as_a_type_item() {
    let mut b = TypespaceBuilder::new(Settings::minimal());
    b.insert(1, Type::Integer("u32".to_string())).unwrap();
    b.insert(2, Type::Vec(1)).unwrap();
    b.insert(3, TypeAlias::new(2).name("Counts").description("how \"many\"").build().unwrap()).unwrap();
    let ts = b.finalize(no_cycles).unwrap();
    assert_eq!(ts.render_alias(3), "#[doc = \"how \\\"many\\\"\"]\npub type Counts = ::std::vec::Vec<u32>;");
}

#[test]
fn default_helper_definitions_name_their_helpers() {
    assert_eq!(DefaultHelper::Boolean.definition(), "pub(super) fn default_bool<const V: bool>() -> bool { V }");
    assert!(DefaultHelper::U64.definition().starts_with("pub(super) fn default_u64<T, const V: u64>() -> T"));
    assert!(DefaultHelper::NZU64.definition().contains("::std::num::NonZeroU64::try_from(V)"));
}

#[test]
fn json_values_render_compactly_and_as_expressions() {
    use_json();
}

fn use_json() {
    let v = JsonValue::Object(vec![
        JsonMember { key: "a\"b".to_string(), value: JsonValue::Array(vec![JsonValue::Number(JsonNumber::PosInt(1)), JsonValue::Null]) },
        JsonMember { key: "t".to_string(), value: JsonValue::String("x\ny".to_string()) },
        JsonMember { key: "n".to_string(), value: JsonValue::Number(JsonNumber::NegInt(-7)) },
    ]);
    assert_eq!(json_value_text(&v), "{\"a\\\"b\":[1,null],\"t\":\"x\\ny\",\"n\":-7}");
    assert_eq!(
        value_expr(&JsonValue::Number(JsonNumber::NegInt(-7))),
        "::serde_json::Value::Number(::serde_json::Number::from(-7i64))"
    );
    assert_eq!(
        value_expr(&JsonValue::Number(JsonNumber::PosInt(18446744073709551615))),
        "::serde_json::Value::Number(::serde_json::Number::from(18446744073709551615u64))"
    );
    assert_eq!(
        value_expr(&JsonValue::Number(JsonNumber::Float("1.5".to_string()))),
        "::serde_json::Value::Number(::serde_json::Number::from_f64(1.5f64).unwrap())"
    );
    assert_eq!(
        value_expr(&JsonValue::Array(vec![JsonValue::Bool(true), JsonValue::String("s".to_string())])),
        "::serde_json::Value::Array(vec![::serde_json::Value::Bool(true), ::serde_json::Value::String(\"s\".to_string())])"
    );
    assert_eq!(json_value_text(&JsonValue::String("\u{1}".to_string())), "\"\\u0001\"");
}

#[test]
fn errors_render_their_messages() {
    assert_eq!(
        Error::UnknownTypeId { type_id: 3, child_id: 9 }.message(),
        "the type with id `3` references the id `9` for which there is no type"
    );
    assert_eq!(
        Error::InvalidDefault { value: JsonValue::Array(vec![JsonValue::Number(JsonNumber::PosInt(1))]), id: 4, reason: "expected a string".to_string() }.message(),
        "the value `[1]` does not fit the type `4`: expected a string"
    );
}

#[test]
fn unit_struct_renders_declaration_only_without_traits() {
    let mut b = TypespaceBuilder::new(Settings::minimal().with_attr("#[allow(dead_code)]"));
    b.insert(1, UnitStruct::new(JsonValue::Null).name("Marker").description("a marker").build().unwrap()).unwrap();
    let ts = b.finalize(no_cycles).unwrap();
    assert_eq!(ts.render_unit_struct(1), "#[doc = \"a marker\"]\n#[allow(dead_code)]\npub struct Marker;\n");
}

#[test]
fn unit_struct_renders_serde_impls_by_hand() {
    let mut b = TypespaceBuilder::new(Settings::typical());
    b.insert(1, UnitStruct::new(JsonValue::String("on".to_string())).name("On").build().unwrap()).unwrap();
    let ts = b.finalize(no_cycles).unwrap();
    let repr = "::serde_json::Value::String(\"on\".to_string())";
    let expected = format!(
        "#[derive(Clone, Debug)]\npub struct On;\n\
         impl ::serde::Serialize for On {{ fn serialize<S>(&self, serializer: S) -> Result<S::Ok, S::Error> where S: ::serde::Serializer {{ {repr}.serialize(serializer) }} }}\n\
         impl<'de> ::serde::Deserialize<'de> for On {{ fn deserialize<D>(deserializer: D) -> Result<Self, D::Error> where D: ::serde::Deserializer<'de> {{ let expected = {repr}; let value: serde_json::Value = ::serde::Deserialize::deserialize(deserializer)?; if value != expected {{ return Err(::serde::de::Error::custom(format!(\"expected unit struct value {{}}, found {{}}\", \"\\\"on\\\"\", ::serde_json::to_string(&value).unwrap()))); }} Ok(On) }} }}\n"
    );
    assert_eq!(value_expr(&JsonValue::String("on".to_string())), repr);
    assert_eq!(ts.render_unit_struct(1), expected);
}

#[test]
fn tuple_struct_renders_fields_and_sequence_impls() {
    let mut b = TypespaceBuilder::new(Settings::typical());
    b.insert(1, Type::Integer("u32".to_string())).unwrap();
    b.insert(2, Type::String).unwrap();
    b.insert(3, TupleStruct::new().name("Pair").fields(vec![1, 2]).build().unwrap()).unwrap();
    let ts = b.finalize(no_cycles).unwrap();
    let expected = "#[derive(Clone, Debug)]\npub struct Pair(pub u32, pub ::std::string::String, );\n\
         impl ::serde::Serialize for Pair { fn serialize<S>(&self, serializer: S) -> Result<S::Ok, S::Error> where S: ::serde::Serializer { use ::serde::ser::SerializeSeq; let mut seq = serializer.serialize_seq(None)?; seq.serialize_element(&self.0)?; seq.serialize_element(&self.1)?; seq.end() } }\n\
         impl<'de> ::serde::Deserialize<'de> for Pair { fn deserialize<D>(deserializer: D) -> Result<Self, D::Error> where D: ::serde::Deserializer<'de> { struct Visitor; impl<'de> ::serde::de::Visitor<'de> for Visitor { type Value = Pair; fn expecting(&self, formatter: &mut ::std::fmt::Formatter) -> ::std::fmt::Result { formatter.write_str(\"a sequence\") } fn visit_seq<A>(self, mut seq: A) -> Result<Self::Value, A::Error> where A: ::serde::de::SeqAccess<'de> { \
         let field_0 = seq.next_element()?.ok_or_else(|| ::serde::de::Error::invalid_length(0usize, &\"a tuple of size 2 or more\"))?; \
         let field_1 = seq.next_element()?.ok_or_else(|| ::serde::de::Error::invalid_length(1usize, &\"a tuple of size 2 or more\"))?; \
         Ok(Pair(field_0, field_1, )) } } deserializer.deserialize_seq(Visitor) } }\n";
    assert_eq!(ts.render_tuple_struct(3), expected);
}

#[test]
fn tuple_struct_with_rest_flattens_it() {
    let mut b = TypespaceBuilder::new(Settings::minimal());
    b.insert(1, Type::Integer("u8".to_string())).unwrap();
    b.insert(2, Type::Vec(1)).unwrap();
    b.insert(3, TupleStruct::new().name("Bytes").fields(vec![1]).rest(2).build().unwrap()).unwrap();
    let ts = b.finalize(no_cycles).unwrap();
    assert_eq!(ts.render_tuple_struct(3), "pub struct Bytes(pub u8, pub ::std::vec::Vec<u8>, );\n");
}

#[test]
fn variant_from_skips_shared_payloads_and_lone_strings() {
    let mut b = TypespaceBuilder::new(Settings::minimal());
    b.insert(1, Type::Integer("u32".to_string())).unwrap();
    b.insert(2, Type::Integer("u32".to_string())).unwrap();
    b.insert(3, Type::String).unwrap();
    b.insert(4, Type::Boolean).unwrap();
    b.insert(5, Struct::new().name("Point").properties(vec![StructProperty::new("x", 1)]).build().unwrap()).unwrap();
    b.insert(
        10,
        Enum::new()
            .name("Value")
            .tag_type(EnumTagType::External)
            .variants(vec![
                EnumVariant::new("A", VariantDetails::Item(1)),
                EnumVariant::new("B", VariantDetails::Item(2)),
                EnumVariant::new("C", VariantDetails::Tuple(vec![1, 3])),
                EnumVariant::new("D", VariantDetails::Item(3)),
                EnumVariant::new("E", VariantDetails::Unit),
                EnumVariant::new("F", VariantDetails::Tuple(vec![4])),
                EnumVariant::new("H", VariantDetails::Item(5)),
            ])
            .build()
            .unwrap(),
    )
    .unwrap();
    let ts = b.finalize(no_cycles).unwrap();
    assert_eq!(
        ts.render_variant_from(10),
        "impl ::std::convert::From<(u32, ::std::string::String)> for Value { fn from(value: (u32, ::std::string::String)) -> Self { Self::C(value.0, value.1, ) } }\n\
         impl ::std::convert::From<(bool,)> for Value { fn from(value: (bool,)) -> Self { Self::F(value.0, ) } }\n\
         impl ::std::convert::From<Point> for Value { fn from(value: Point) -> Self { Self::H(value) } }\n"
    );
    assert_eq!(ts.render_enum_impls(10), "");
}

#[test]
fn unit_enum_displays_and_parses_serialized_names() {
    let settings = Settings::minimal()
        .with_required_trait(TypespaceTrait::Display)
        .with_required_trait(TypespaceTrait::FromStr);
    let mut b = TypespaceBuilder::new(settings);
    b.insert(
        1,
        Enum::new()
            .name("Color")
            .tag_type(EnumTagType::External)
            .variants(vec![
                EnumVariant::new("Red", VariantDetails::Unit),
                EnumVariant::new("Blue", VariantDetails::Unit).with_rename("blue"),
            ])
            .build()
            .unwrap(),
    )
    .unwrap();
    let ts = b.finalize(no_cycles).unwrap();
    assert_eq!(
        ts.render_enum_impls(1),
        "impl ::std::fmt::Display for Color { fn fmt(&self, f: &mut ::std::fmt::Formatter<'_>) -> ::std::fmt::Result { match *self { Self::Red => f.write_str(\"Red\"), Self::Blue => f.write_str(\"blue\"), } } }\n\
         impl ::std::str::FromStr for Color { type Err = self::error::ConversionError; fn from_str(value: &str) -> ::std::result::Result<Self, self::error::ConversionError> { match value { \"Red\" => Ok(Self::Red), \"blue\" => Ok(Self::Blue), _ => Err(\"invalid value\".into()), } } }\n\
         impl ::std::convert::TryFrom<&str> for Color { type Error = self::error::ConversionError; fn try_from(value: &str) -> ::std::result::Result<Self, self::error::ConversionError> { value.parse() } }\n\
         impl ::std::convert::TryFrom<::std::string::String> for Color { type Error = self::error::ConversionError; fn try_from(value: ::std::string::String) -> ::std::result::Result<Self, self::error::ConversionError> { value.parse() } }\n"
    );
    assert_eq!(ts.render_variant_from(1), "");
}

#[test]
fn untagged_item_enum_displays_and_parses_its_payload() {
    let settings = Settings::minimal().with_required_trait(TypespaceTrait::Display);
    let mut b = TypespaceBuilder::new(settings);
    b.insert(1, Type::Integer("u32".to_string())).unwrap();
    b.insert(2, Type::Boolean).unwrap();
    b.insert(
        3,
        Enum::new()
            .name("Either")
            .tag_type(EnumTagType::Untagged)
            .variants(vec![
                EnumVariant::new("Count", VariantDetails::Item(1)),
                EnumVariant::new("Flag", VariantDetails::Item(2)),
            ])
            .build()
            .unwrap(),
    )
    .unwrap();
    let ts = b.finalize(no_cycles).unwrap();
    assert_eq!(
        ts.render_enum_impls(3),
        "impl ::std::fmt::Display for Either { fn fmt(&self, f: &mut ::std::fmt::Formatter<'_>) -> ::std::fmt::Result { match self { Self::Count(x) => x.fmt(f), Self::Flag(x) => x.fmt(f), } } }\n"
    );
}

#[test]
fn unconstrained_newtype_converts_both_ways() {
    let mut b = TypespaceBuilder::new(Settings::typical());
    b.insert(1, Type::Integer("u32".to_string())).unwrap();
    b.insert(2, NewtypeStruct::new(1).name("Count").build().unwrap()).unwrap();
    let ts = b.finalize(no_cycles).unwrap();
    assert_eq!(
        ts.render_newtype_struct(2),
        "#[derive(::serde::Deserialize, ::serde::Serialize, Clone, Debug)]\n#[serde(transparent)]\npub struct Count(pub u32);\n\
         impl ::std::ops::Deref for Count { type Target = u32; fn deref(&self) -> &u32 { &self.0 } }\n\
         impl ::std::convert::From<Count> for u32 { fn from(value: Count) -> Self { value.0 } }\n\
         impl ::std::convert::From<u32> for Count { fn from(value: u32) -> Self { Self(value) } }\n"
    );
}

#[test]
fn string_newtype_checks_before_wrapping() {
    let mut b = TypespaceBuilder::new(Settings::typical());
    b.insert(1, Type::String).unwrap();
    b.insert(
        2,
        NewtypeStruct::new(1)
            .name("Slug")
            .constraints(NewtypeConstraints::String { min: Some(1), max: Some(8), patterns: vec!["^[a-z]+$".to_string()] })
            .build()
            .unwrap(),
    )
    .unwrap();
    let ts = b.finalize(no_cycles).unwrap();
    assert_eq!(
        ts.render_newtype_struct(2),
        "#[derive(::serde::Serialize, Clone, Debug)]\n#[serde(transparent)]\npub struct Slug(::std::string::String);\n\
         impl ::std::ops::Deref for Slug { type Target = ::std::string::String; fn deref(&self) -> &::std::string::String { &self.0 } }\n\
         impl ::std::convert::TryFrom<&str> for Slug { type Error = self::error::ConversionError; fn try_from(value: &str) -> ::std::result::Result<Self, self::error::ConversionError> { \
         if value.chars().count() > 8usize { return Err(\"longer than 8 characters\".into()); } \
         if value.chars().count() < 1usize { return Err(\"shorter than 1 characters\".into()); } \
         static PATTERN: ::std::sync::LazyLock<::regress::Regex> = ::std::sync::LazyLock::new(|| { ::regress::Regex::new(\"^[a-z]+$\").unwrap() }); \
         if PATTERN.find(value).is_none() { return Err(\"doesn't match pattern \\\"^[a-z]+$\\\"\".into()); } \
         Ok(Self(value.to_string())) } }\n\
         impl ::std::convert::TryFrom<::std::string::String> for Slug { type Error = self::error::ConversionError; fn try_from(value: ::std::string::String) -> ::std::result::Result<Self, self::error::ConversionError> { ::std::convert::TryFrom::try_from(value.as_str()) } }\n\
         impl<'de> ::serde::Deserialize<'de> for Slug { fn deserialize<D>(deserializer: D) -> ::std::result::Result<Self, D::Error> where D: ::serde::Deserializer<'de> { ::std::convert::TryFrom::try_from(::std::string::String::deserialize(deserializer)?).map_err(|e: self::error::ConversionError| { <D::Error as ::serde::de::Error>::custom(e.to_string()) }) } }\n"
    );
}
