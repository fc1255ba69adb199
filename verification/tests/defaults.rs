use std::collections::BTreeMap;

use typespace::build::alias::TypeAlias;
use typespace::build::enums::{Enum, EnumTagType, EnumVariant, VariantDetails};
use typespace::build::native::Native;
use typespace::build::structs::{
    NewtypeStruct, Struct, StructProperty, StructPropertySerde, StructPropertyState, TupleStruct, UnitStruct,
};
use typespace::build::Type;
use typespace::defaults::{check_default, shared_default_fn, DefaultHelper};
use typespace::error::Error;
use typespace::finalize::{no_cycles, TypespaceBuilder};
use typespace::json::{JsonMember, JsonNumber, JsonValue};
use typespace::settings::{ContainerType, OptionalNullable, Settings};

fn num(n: u64) -> JsonValue {
    JsonValue::Number(JsonNumber::PosInt(n))
}

fn text(s: &str) -> JsonValue {
    JsonValue::String(s.to_string())
}

fn array(items: Vec<JsonValue>) -> JsonValue {
    JsonValue::Array(items)
}

fn object(members: Vec<(&str, JsonValue)>) -> JsonValue {
    JsonValue::Object(
        members
            .into_iter()
            .map(|(key, value)| JsonMember { key: key.to_string(), value })
            .collect(),
    )
}

fn types(entries: Vec<(u64, Type)>) -> BTreeMap<u64, Type> {
    entries.into_iter().collect()
}

fn accepts(types: &BTreeMap<u64, Type>, id: u64, value: &JsonValue) -> bool {
    accepts_with(types, &Settings::minimal(), id, value)
}

fn accepts_with(types: &BTreeMap<u64, Type>, settings: &Settings, id: u64, value: &JsonValue) -> bool {
    match check_default(types, settings, value, id) {
        Ok(()) => true,
        Err(Error::InvalidDefault { .. }) => false,
        Err(other) => panic!("unexpected error: {other:?}"),
    }
}

fn reason(types: &BTreeMap<u64, Type>, id: u64, value: &JsonValue) -> String {
    match check_default(types, &Settings::minimal(), value, id) {
        Err(Error::InvalidDefault { reason, .. }) => reason,
        other => panic!("expected an invalid default, got {other:?}"),
    }
}

fn strukt(name: &str, props: Vec<StructProperty>) -> Type {
    Struct::new().name(name).properties(props).build().unwrap()
}

fn enumeration(name: &str, tag: EnumTagType, variants: Vec<EnumVariant>) -> Type {
    Enum::new().name(name).tag_type(tag).variants(variants).build().unwrap()
}

const U32: u64 = 1;
const STRING: u64 = 2;

fn scalars() -> Vec<(u64, Type)> {
    vec![(U32, Type::Integer("u32".to_string())), (STRING, Type::String)]
}

#[test]
fn unit_accepts_only_null() {
    let t = types(vec![(1, Type::Unit)]);
    assert!(accepts(&t, 1, &JsonValue::Null));
    assert!(!accepts(&t, 1, &num(0)));
    assert_eq!(reason(&t, 1, &num(0)), "unit type default value must be null");
}

#[test]
fn scalars_accept_their_json_kind() {
    let t = types(vec![
        (1, Type::Boolean),
        (2, Type::Integer("i64".to_string())),
        (3, Type::Float("f64".to_string())),
        (4, Type::String),
    ]);
    assert!(accepts(&t, 1, &JsonValue::Bool(true)));
    assert!(!accepts(&t, 1, &num(1)));
    assert!(accepts(&t, 2, &JsonValue::Number(JsonNumber::NegInt(-3))));
    assert!(!accepts(&t, 2, &text("3")));
    assert!(accepts(&t, 3, &JsonValue::Number(JsonNumber::Float("1.5".to_string()))));
    assert!(accepts(&t, 3, &num(7)));
    assert!(!accepts(&t, 3, &text("1.5")));
    assert!(accepts(&t, 4, &text("hello")));
    assert!(!accepts(&t, 4, &JsonValue::Null));
    assert_eq!(reason(&t, 2, &text("3")), "expected an integer");
    assert_eq!(reason(&t, 3, &text("1.5")), "expected a number");
}

#[test]
fn native_and_json_value_accept_anything() {
    let t = types(vec![
        (1, Type::Native(Native::new_string_like("::chrono::NaiveDate"))),
        (2, Type::JsonValue),
    ]);
    assert!(accepts(&t, 1, &object(vec![("not", text("a date"))])));
    assert!(accepts(&t, 2, &array(vec![num(8), num(6), num(7)])));
}

#[test]
fn never_has_no_value() {
    let t = types(vec![(1, Type::Never)]);
    assert!(!accepts(&t, 1, &JsonValue::Null));
    assert_eq!(reason(&t, 1, &JsonValue::Null), "a never type may not have a value");
}

#[test]
fn wrappers_defer_to_what_they_wrap() {
    let mut entries = scalars();
    entries.push((10, TypeAlias::new(U32).name("Count").build().unwrap()));
    entries.push((11, NewtypeStruct::new(STRING).name("Label").build().unwrap()));
    entries.push((12, Type::Box(U32)));
    entries.push((13, Type::Option(U32)));
    let t = types(entries);
    assert!(accepts(&t, 10, &num(4)));
    assert!(!accepts(&t, 10, &text("four")));
    assert!(accepts(&t, 11, &text("x")));
    assert!(!accepts(&t, 11, &num(1)));
    assert!(accepts(&t, 12, &num(1)));
    assert!(accepts(&t, 13, &JsonValue::Null));
    assert!(accepts(&t, 13, &num(2)));
    assert!(!accepts(&t, 13, &text("2")));
}

#[test]
fn unit_struct_matches_its_representation() {
    let t = types(vec![(1, UnitStruct::new(text("on")).name("On").build().unwrap())]);
    assert!(accepts(&t, 1, &text("on")));
    assert!(!accepts(&t, 1, &text("off")));
}

#[test]
fn sequences_check_each_item() {
    let mut entries = scalars();
    entries.push((10, Type::Vec(U32)));
    entries.push((11, Type::SetOf(U32)));
    entries.push((12, Type::Array(U32, 2)));
    entries.push((13, Type::Tuple(vec![U32, STRING])));
    let t = types(entries);
    assert!(accepts(&t, 10, &array(vec![num(1), num(2), num(1)])));
    assert!(!accepts(&t, 10, &array(vec![num(1), text("2")])));
    assert!(!accepts(&t, 10, &num(1)));
    assert_eq!(reason(&t, 10, &num(1)), "expected array");
    assert!(accepts(&t, 11, &array(vec![num(1), num(2)])));
    assert!(!accepts(&t, 11, &array(vec![num(1), num(2), num(1)])));
    assert!(accepts(&t, 12, &array(vec![num(1), num(2)])));
    assert!(!accepts(&t, 12, &array(vec![num(1)])));
    assert_eq!(reason(&t, 12, &array(vec![num(1)])), "expected an array of length 2");
    assert!(accepts(&t, 13, &array(vec![num(1), text("a")])));
    assert!(!accepts(&t, 13, &array(vec![text("a"), num(1)])));
    assert_eq!(reason(&t, 13, &array(vec![num(1)])), "expected a tuple of length 2");
}

#[test]
fn set_default_rejects_duplicates() {
    let t = types(vec![(1, Type::String), (2, Type::SetOf(1))]);
    assert!(!accepts(&t, 2, &array(vec![text("a"), text("a")])));
    assert!(reason(&t, 2, &array(vec![text("a"), text("a")])).starts_with("duplicate value in set default"));
}

#[test]
fn map_keys_are_checked_as_strings() {
    let mut entries = scalars();
    entries.push((10, Type::MapOf(STRING, U32)));
    entries.push((11, Type::MapOf(U32, U32)));
    let t = types(entries);
    assert!(accepts(&t, 10, &object(vec![("a", num(1)), ("b", num(2))])));
    assert!(!accepts(&t, 10, &object(vec![("a", text("1"))])));
    assert!(!accepts(&t, 10, &array(vec![])));
    assert!(!accepts(&t, 11, &object(vec![("1", num(1))])));
    assert!(accepts(&t, 11, &object(vec![])));
}

#[test]
fn struct_properties_follow_their_state() {
    let mut entries = scalars();
    entries.push((
        10,
        strukt(
            "Point",
            vec![
                StructProperty::new("x", U32),
                StructProperty::new("label", STRING).with_state(StructPropertyState::Optional),
                StructProperty::new("count", U32).with_state(StructPropertyState::Default),
                StructProperty::new("y", U32)
                    .with_json_name(StructPropertySerde::Rename("why".to_string()))
                    .with_state(StructPropertyState::DefaultValue(num(5))),
            ],
        ),
    ));
    let t = types(entries);
    assert!(accepts(&t, 10, &object(vec![("x", num(1))])));
    assert!(accepts(&t, 10, &object(vec![("x", num(1)), ("why", num(2)), ("label", text("p"))])));
    assert!(!accepts(&t, 10, &object(vec![("label", text("p"))])));
    assert_eq!(reason(&t, 10, &object(vec![])), "property x is required");
    assert!(!accepts(&t, 10, &object(vec![("x", num(1)), ("why", text("2"))])));
    assert!(!accepts(&t, 10, &array(vec![])));
    // Members no property names are ignored unless unknown fields are denied.
    assert!(accepts(&t, 10, &object(vec![("x", num(1)), ("z", num(3))])));
}

#[test]
fn property_default_values_are_checked_when_absent() {
    let mut entries = scalars();
    entries.push((
        10,
        strukt(
            "Bad",
            vec![StructProperty::new("n", U32).with_state(StructPropertyState::DefaultValue(text("no")))],
        ),
    ));
    let t = types(entries);
    assert!(accepts(&t, 10, &object(vec![("n", num(1))])));
    assert!(!accepts(&t, 10, &object(vec![])));
}

#[test]
fn denied_unknown_fields_reject_extra_members() {
    let mut entries = scalars();
    entries.push((
        10,
        Struct::new()
            .name("Strict")
            .properties(vec![StructProperty::new("a", U32)])
            .deny_unknown_fields()
            .build()
            .unwrap(),
    ));
    let t = types(entries);
    assert!(accepts(&t, 10, &object(vec![("a", num(1))])));
    assert!(!accepts(&t, 10, &object(vec![("a", num(1)), ("b", num(2)), ("c", num(3))])));
    assert_eq!(
        reason(&t, 10, &object(vec![("a", num(1)), ("b", num(2)), ("c", num(3))])),
        "extra properties in default: b,c"
    );
}

#[test]
fn flattened_property_reads_the_unnamed_members() {
    let mut entries = scalars();
    entries.push((10, Type::MapOf(STRING, U32)));
    entries.push((
        11,
        strukt(
            "Bag",
            vec![
                StructProperty::new("name", STRING),
                StructProperty::new("rest", 10).with_json_name(StructPropertySerde::Flatten),
            ],
        ),
    ));
    let t = types(entries);
    assert!(accepts(&t, 11, &object(vec![("name", text("n")), ("a", num(1)), ("b", num(2))])));
    assert!(!accepts(&t, 11, &object(vec![("name", text("n")), ("a", text("1"))])));
}

#[test]
fn optional_flattened_property_never_fails() {
    let mut entries = scalars();
    entries.push((10, Type::MapOf(STRING, U32)));
    entries.push((
        11,
        strukt(
            "Bag",
            vec![StructProperty::new("rest", 10)
                .with_json_name(StructPropertySerde::Flatten)
                .with_state(StructPropertyState::Optional)],
        ),
    ));
    let t = types(entries);
    assert!(accepts(&t, 11, &object(vec![("a", text("not a number"))])));
}

#[test]
fn custom_optional_nullable_accepts_null_for_an_option_property() {
    let mut entries = scalars();
    entries.push((10, Type::Option(U32)));
    entries.push((
        11,
        strukt("Patch", vec![StructProperty::new("n", 10).with_state(StructPropertyState::Optional)]),
    ));
    let t = types(entries);
    let custom = Settings::minimal().with_optional_nullable(OptionalNullable::CustomType(ContainerType::option()));
    assert!(accepts_with(&t, &custom, 11, &object(vec![("n", JsonValue::Null)])));
    assert!(accepts_with(&t, &custom, 11, &object(vec![("n", num(3))])));
    assert!(!accepts_with(&t, &custom, 11, &object(vec![("n", text("3"))])));
}

fn shapes() -> Vec<EnumVariant> {
    vec![
        EnumVariant::new("Empty", VariantDetails::Unit),
        EnumVariant::new("Count", VariantDetails::Item(U32)).with_rename("count"),
        EnumVariant::new("Pair", VariantDetails::Tuple(vec![U32, STRING])),
        EnumVariant::new("Named", VariantDetails::Struct(vec![StructProperty::new("label", STRING)])),
    ]
}

#[test]
fn externally_tagged_enum_defaults() {
    let mut entries = scalars();
    entries.push((10, enumeration("Shape", EnumTagType::External, shapes())));
    let t = types(entries);
    assert!(accepts(&t, 10, &text("Empty")));
    assert!(!accepts(&t, 10, &text("count")));
    assert_eq!(reason(&t, 10, &text("count")), "non-unit variant count without its payload");
    assert!(!accepts(&t, 10, &text("Nothing")));
    assert_eq!(reason(&t, 10, &text("Nothing")), "variant Nothing not found in enum");
    assert!(accepts(&t, 10, &object(vec![("count", num(3))])));
    assert!(!accepts(&t, 10, &object(vec![("Count", num(3))])));
    assert!(accepts(&t, 10, &object(vec![("Pair", array(vec![num(1), text("a")]))])));
    assert!(accepts(&t, 10, &object(vec![("Named", object(vec![("label", text("l"))]))])));
    assert!(!accepts(&t, 10, &object(vec![("Empty", JsonValue::Null)])));
    assert!(!accepts(&t, 10, &object(vec![("count", num(1)), ("Empty", JsonValue::Null)])));
    assert!(!accepts(&t, 10, &num(1)));
}

#[test]
fn internally_tagged_enum_defaults() {
    let mut entries = scalars();
    entries.push((20, strukt("Inner", vec![StructProperty::new("n", U32)])));
    let mut variants = shapes();
    variants.push(EnumVariant::new("Wrapped", VariantDetails::Item(20)));
    entries.push((10, enumeration("Shape", EnumTagType::Internal { tag: "kind".to_string() }, variants)));
    let t = types(entries);
    assert!(accepts(&t, 10, &object(vec![("kind", text("Empty"))])));
    assert!(accepts(&t, 10, &object(vec![("kind", text("Named")), ("label", text("l"))])));
    assert!(!accepts(&t, 10, &object(vec![("kind", text("Named"))])));
    assert!(accepts(&t, 10, &object(vec![("kind", text("Wrapped")), ("n", num(1))])));
    assert!(!accepts(&t, 10, &object(vec![("kind", text("Pair"))])));
    assert!(!accepts(&t, 10, &object(vec![("label", text("l"))])));
    assert_eq!(reason(&t, 10, &object(vec![])), "expected a string tag property \"kind\"");
    assert!(!accepts(&t, 10, &object(vec![("kind", num(1))])));
    assert!(!accepts(&t, 10, &text("Empty")));
}

#[test]
fn adjacently_tagged_enum_defaults() {
    let mut entries = scalars();
    entries.push((
        10,
        enumeration("Shape", EnumTagType::Adjacent { tag: "t".to_string(), content: "c".to_string() }, shapes()),
    ));
    let t = types(entries);
    assert!(accepts(&t, 10, &object(vec![("t", text("Empty"))])));
    assert!(!accepts(&t, 10, &object(vec![("t", text("Empty")), ("c", JsonValue::Null)])));
    assert!(accepts(&t, 10, &object(vec![("t", text("count")), ("c", num(2))])));
    assert!(!accepts(&t, 10, &object(vec![("t", text("count"))])));
    assert!(!accepts(&t, 10, &object(vec![("t", text("count")), ("c", num(2)), ("x", num(1))])));
    assert!(accepts(&t, 10, &object(vec![("c", array(vec![num(1), text("a")])), ("t", text("Pair"))])));
    assert!(!accepts(&t, 10, &object(vec![("c", num(2))])));
}

#[test]
fn untagged_enum_takes_the_first_fitting_variant() {
    let mut entries = scalars();
    entries.push((10, enumeration("Shape", EnumTagType::Untagged, shapes())));
    let t = types(entries);
    assert!(accepts(&t, 10, &JsonValue::Null));
    assert!(accepts(&t, 10, &num(4)));
    assert!(accepts(&t, 10, &array(vec![num(1), text("a")])));
    assert!(accepts(&t, 10, &object(vec![("label", text("l"))])));
    assert!(!accepts(&t, 10, &text("nothing fits")));
    assert_eq!(reason(&t, 10, &text("x")), "no variant of the untagged enum accepts this value");
}

#[test]
fn tuple_struct_defaults_with_and_without_rest() {
    let mut entries = scalars();
    entries.push((10, Type::Vec(U32)));
    entries.push((11, TupleStruct::new().name("Fixed").fields(vec![U32, STRING]).build().unwrap()));
    entries.push((12, TupleStruct::new().name("Open").fields(vec![STRING]).rest(10).build().unwrap()));
    let t = types(entries);
    assert!(accepts(&t, 11, &array(vec![num(1), text("a")])));
    assert!(!accepts(&t, 11, &array(vec![num(1)])));
    assert_eq!(reason(&t, 11, &array(vec![num(1)])), "expected an array of length 2");
    assert!(accepts(&t, 12, &array(vec![text("a")])));
    assert!(accepts(&t, 12, &array(vec![text("a"), num(1), num(2)])));
    assert!(!accepts(&t, 12, &array(vec![text("a"), text("b")])));
    assert!(!accepts(&t, 12, &array(vec![])));
    assert_eq!(reason(&t, 12, &array(vec![])), "expected an array of at least length 1");
}

#[test]
fn self_expanding_default_is_reported_as_recursive() {
    // A newtype whose inner type is an alias back to the newtype: the walk
    // would revisit the pair (type, value) without narrowing the value.
    let t = types(vec![
        (1, NewtypeStruct::new(2).name("Loop").build().unwrap()),
        (2, TypeAlias::new(1).name("Back").build().unwrap()),
    ]);
    assert!(!accepts(&t, 1, &num(1)));
    assert_eq!(reason(&t, 1, &num(1)), "property default value is recursive");
}

#[test]
fn property_own_defaults_are_checked() {
    let mut entries = scalars();
    let good = StructProperty::new("n", U32).with_state(StructPropertyState::DefaultValue(num(1)));
    let bad = StructProperty::new("m", U32).with_state(StructPropertyState::DefaultValue(text("one")));
    let plain = StructProperty::new("s", STRING);
    entries.push((9, Type::Unit));
    let t = types(entries);
    let settings = Settings::minimal();
    assert!(good.check_defaults(&t, &settings).is_ok());
    assert!(plain.check_defaults(&t, &settings).is_ok());
    assert!(bad.check_defaults(&t, &settings).is_err());
    let s = Struct::new().name("S").properties(vec![good.clone(), bad.clone()]);
    assert!(s.check_field_defaults(&t, &settings).is_err());
    let s = Struct::new().name("S").properties(vec![good.clone(), plain.clone()]);
    assert!(s.check_field_defaults(&t, &settings).is_ok());
    let e = Enum::new().name("E").tag_type(EnumTagType::External).variants(vec![
        EnumVariant::new("A", VariantDetails::Unit),
        EnumVariant::new("B", VariantDetails::Struct(vec![good, bad])),
    ]);
    assert!(e.check_field_defaults(&t, &settings).is_err());
}

#[test]
fn finalize_rejects_an_invalid_type_default() {
    let mut builder = TypespaceBuilder::new(Settings::minimal());
    builder.insert(1, Type::Integer("u32".to_string())).unwrap();
    builder
        .insert(
            2,
            Struct::new()
                .name("Config")
                .properties(vec![StructProperty::new("port", 1)])
                .default(object(vec![("port", text("eighty"))]))
                .build()
                .unwrap(),
        )
        .unwrap();
    match builder.finalize(no_cycles) {
        Err(Error::InvalidDefault { id, .. }) => assert_eq!(id, 1),
        Err(other) => panic!("unexpected error: {other:?}"),
        Ok(_) => panic!("finalization unexpectedly succeeded"),
    }
}

#[test]
fn finalize_accepts_a_valid_type_default() {
    let mut builder = TypespaceBuilder::new(Settings::minimal());
    builder.insert(1, Type::Integer("u32".to_string())).unwrap();
    builder
        .insert(
            2,
            Struct::new()
                .name("Config")
                .properties(vec![StructProperty::new("port", 1)])
                .default(object(vec![("port", num(80))]))
                .build()
                .unwrap(),
        )
        .unwrap();
    assert!(builder.finalize(no_cycles).is_ok());
}

fn routing_types() -> BTreeMap<u64, Type> {
    types(vec![
        (1, Type::Boolean),
        (2, Type::Integer("u32".to_string())),
        (3, Type::Integer("i32".to_string())),
        (4, Type::Integer("::std::num::NonZeroU8".to_string())),
        (5, Type::Integer("::std::num::NonZeroI32".to_string())),
        (6, Type::Float("f64".to_string())),
        (7, Type::String),
        (8, Type::JsonValue),
        (9, Type::Unit),
        (10, Type::Option(2)),
    ])
}

/// The path that instantiates the shared function for `value` at `id`,
/// or `None` where the property needs a function of its own.
fn shared_path(types: &BTreeMap<u64, Type>, id: u64, value: JsonValue) -> Option<String> {
    shared_default_fn(types, id, &value).map(|shared| shared.path)
}

#[test]
fn test_shared_default_fn_routing() {
    let types = routing_types();

    // A boolean is produced by default_bool, whichever value it is.
    assert_eq!(shared_path(&types, 1, JsonValue::Bool(true)).as_deref(), Some("defaults::default_bool::<true>"));
    assert_eq!(shared_path(&types, 1, JsonValue::Bool(false)).as_deref(), Some("defaults::default_bool::<false>"));

    // An integer is produced from a u64 when the value is one, and from an
    // i64 otherwise.
    assert_eq!(shared_path(&types, 2, num(7)).as_deref(), Some("defaults::default_u64::<u32, 7>"));
    assert_eq!(shared_path(&types, 2, num(0)).as_deref(), Some("defaults::default_u64::<u32, 0>"));
    assert_eq!(
        shared_path(&types, 3, JsonValue::Number(JsonNumber::NegInt(-3))).as_deref(),
        Some("defaults::default_i64::<i32, -3>"),
    );

    // A NonZero type converts from a NonZeroU64.
    assert_eq!(
        shared_path(&types, 4, num(2)).as_deref(),
        Some("defaults::default_nzu64::<::std::num::NonZeroU8, 2>"),
    );

    // A negative value for a signed NonZero type has no shared function.
    assert_eq!(shared_path(&types, 5, JsonValue::Number(JsonNumber::NegInt(-3))), None);

    // A number that is neither a u64 nor an i64 has none either.
    assert_eq!(shared_path(&types, 2, JsonValue::Number(JsonNumber::Float("1.5".to_string()))), None);

    // No other type has one.
    assert_eq!(shared_path(&types, 6, JsonValue::Number(JsonNumber::Float("1.5".to_string()))), None);
    assert_eq!(shared_path(&types, 7, text("hi")), None);
    assert_eq!(shared_path(&types, 8, object(vec![])), None);
    assert_eq!(shared_path(&types, 9, JsonValue::Null), None);
    assert_eq!(shared_path(&types, 10, num(5)), None);
}

#[test]
fn shared_default_fn_names_its_helper() {
    let types = routing_types();
    assert_eq!(shared_default_fn(&types, 1, &JsonValue::Bool(true)).unwrap().helper, DefaultHelper::Boolean);
    assert_eq!(shared_default_fn(&types, 2, &num(u64::MAX)).unwrap().path, format!("defaults::default_u64::<u32, {}>", u64::MAX));
    let min = shared_default_fn(&types, 3, &JsonValue::Number(JsonNumber::NegInt(i64::MIN))).unwrap();
    assert_eq!(min.helper, DefaultHelper::I64);
    assert_eq!(min.path, format!("defaults::default_i64::<i32, {}>", i64::MIN));
    assert_eq!(shared_default_fn(&types, 4, &num(9)).unwrap().helper, DefaultHelper::NZU64);
}

/// A float rejects a value that is not a number.
#[test]
fn test_float_rejects_non_number() {
    let t = types(vec![(1, Type::Float("f64".to_string()))]);
    let settings = Settings::minimal();
    assert!(matches!(check_default(&t, &settings, &text("1.5"), 1), Err(Error::InvalidDefault { .. })));
}
