use typespace::build::alias::TypeAlias;
use typespace::build::enums::{Enum, EnumTagType, EnumVariant, VariantDetails};
use typespace::build::native::Native;
use typespace::build::structs::{NewtypeStruct, Struct, StructProperty, StructPropertyState, UnitStruct};
use typespace::build::Type;
use typespace::finalize::{no_cycles, Typespace, TypespaceBuilder};
use typespace::json::JsonValue;
use typespace::settings::Settings;
use typespace::view;
use typespace::{TypespaceTrait, TypespaceTraitSet};

const U32: u64 = 1;
const STRING: u64 = 2;
const FLOAT: u64 = 3;
const POINT: u64 = 10;
const SHAPE: u64 = 11;
const METERS: u64 = 12;
const ALIAS: u64 = 13;
const VEC_U32: u64 = 20;
const VEC_FLOAT: u64 = 21;
const OPT_STRING: u64 = 22;
const TUPLE: u64 = 23;
const UNIT_STRUCT: u64 = 24;
const DATE: u64 = 25;

fn typespace() -> Typespace {
    let mut b = TypespaceBuilder::new(Settings::typical());
    b.insert(U32, Type::Integer("u32".to_string())).unwrap();
    b.insert(STRING, Type::String).unwrap();
    b.insert(FLOAT, Type::Float("f64".to_string())).unwrap();
    b.insert(
        POINT,
        Struct::new()
            .name("Point")
            .description("A point.")
            .properties(vec![
                StructProperty::new("x", U32),
                StructProperty::new("label", STRING)
                    .with_state(StructPropertyState::Optional)
                    .with_description("What to call it."),
            ])
            .build()
            .unwrap(),
    )
    .unwrap();
    b.insert(
        SHAPE,
        Enum::new()
            .name("Shape")
            .tag_type(EnumTagType::External)
            .variants(vec![
                EnumVariant::new("Empty", VariantDetails::Unit).with_description("Nothing."),
                EnumVariant::new("Count", VariantDetails::Item(U32)),
                EnumVariant::new("Pair", VariantDetails::Tuple(vec![U32, STRING])),
                EnumVariant::new("Named", VariantDetails::Struct(vec![StructProperty::new("name", STRING)])),
            ])
            .build()
            .unwrap(),
    )
    .unwrap();
    b.insert(METERS, NewtypeStruct::new(FLOAT).name("Meters").build().unwrap()).unwrap();
    b.insert(ALIAS, TypeAlias::new(POINT).name("Place").build().unwrap()).unwrap();
    b.insert(VEC_U32, Type::Vec(U32)).unwrap();
    b.insert(VEC_FLOAT, Type::Vec(FLOAT)).unwrap();
    b.insert(OPT_STRING, Type::Option(STRING)).unwrap();
    b.insert(TUPLE, Type::Tuple(vec![U32, FLOAT])).unwrap();
    b.insert(UNIT_STRUCT, UnitStruct::new(JsonValue::Null).name("Nothing").build().unwrap()).unwrap();
    b.insert(DATE, Type::Native(Native::new("::chrono::NaiveDate", TypespaceTraitSet::empty(), Vec::new()))).unwrap();
    b.finalize(no_cycles).unwrap()
}

#[test]
fn view_names_and_descriptions() {
    let ts = typespace();
    assert_eq!(ts.get_type(POINT).name(), Some("Point"));
    assert_eq!(ts.get_type(POINT).description(), Some("A point."));
    assert_eq!(ts.get_type(SHAPE).description(), None);
    assert_eq!(ts.get_type(VEC_U32).name(), None);
    assert_eq!(ts.get_type(U32).description(), None);
}

#[test]
fn view_struct_properties() {
    let ts = typespace();
    let view::TypeDetails::Struct(s) = ts.get_type(POINT).details() else {
        panic!("Point is a struct");
    };
    assert_eq!(s.properties(), vec![("x", U32), ("label", STRING)]);
    let info = s.properties_info();
    assert_eq!(info.len(), 2);
    assert_eq!(info[0].name, "x");
    assert!(info[0].required);
    assert_eq!(info[0].description, None);
    assert_eq!(info[1].name, "label");
    assert!(!info[1].required);
    assert_eq!(info[1].description, Some("What to call it."));
    assert_eq!(info[1].type_id, STRING);
}

#[test]
fn view_enum_variants() {
    let ts = typespace();
    let view::TypeDetails::Enum(e) = ts.get_type(SHAPE).details() else {
        panic!("Shape is an enum");
    };
    let variants = e.variants();
    assert_eq!(variants.len(), 4);
    assert_eq!(variants[0].0, "Empty");
    assert!(matches!(variants[0].1, view::VariantDetails::Unit));
    match &variants[1].1 {
        view::VariantDetails::Tuple(ids) => assert_eq!(ids, &vec![U32]),
        _ => panic!("an item variant reads as a one-element tuple"),
    }
    match &variants[2].1 {
        view::VariantDetails::Tuple(ids) => assert_eq!(ids, &vec![U32, STRING]),
        _ => panic!("Pair is a tuple variant"),
    }
    match &variants[3].1 {
        view::VariantDetails::Struct(fields) => assert_eq!(fields, &vec![("name".to_string(), STRING)]),
        _ => panic!("Named is a struct variant"),
    }
    let info = e.variants_info();
    assert_eq!(info[0].description, Some("Nothing."));
    assert_eq!(info[3].name, "Named");
}

#[test]
fn view_details_of_containers_and_builtins() {
    let ts = typespace();
    assert!(matches!(ts.get_type(VEC_U32).details(), view::TypeDetails::Vec(U32)));
    assert!(matches!(ts.get_type(OPT_STRING).details(), view::TypeDetails::Option(STRING)));
    assert!(matches!(ts.get_type(STRING).details(), view::TypeDetails::String));
    assert!(matches!(ts.get_type(U32).details(), view::TypeDetails::Builtin("u32")));
    assert!(matches!(ts.get_type(ALIAS).details(), view::TypeDetails::Builtin("Place")));
    assert!(matches!(ts.get_type(UNIT_STRUCT).details(), view::TypeDetails::Builtin("Nothing")));
    assert!(matches!(ts.get_type(DATE).details(), view::TypeDetails::Builtin("::chrono::NaiveDate")));
    match ts.get_type(TUPLE).details() {
        view::TypeDetails::Tuple(ids) => assert_eq!(ids, vec![U32, FLOAT]),
        _ => panic!("a tuple"),
    }
    match ts.get_type(METERS).details() {
        view::TypeDetails::Newtype(n) => assert_eq!(n.inner(), FLOAT),
        _ => panic!("Meters is a newtype"),
    }
}

#[test]
fn view_has_impl_follows_trait_resolution() {
    let ts = typespace();
    // Typical settings require the serde traits, Clone and Debug of
    // every named type.
    assert!(ts.get_type(POINT).has_impl(TypespaceTrait::Clone));
    assert!(!ts.get_type(POINT).has_impl(TypespaceTrait::Display));
    // An alias answers for its target.
    assert!(ts.get_type(ALIAS).has_impl(TypespaceTrait::Clone));
    // Containers answer from what they hold.
    assert!(ts.get_type(VEC_U32).has_impl(TypespaceTrait::Eq));
    assert!(!ts.get_type(VEC_FLOAT).has_impl(TypespaceTrait::Eq));
    assert!(ts.get_type(OPT_STRING).has_impl(TypespaceTrait::Default));
    assert!(!ts.get_type(OPT_STRING).has_impl(TypespaceTrait::Display));
    assert!(!ts.get_type(TUPLE).has_impl(TypespaceTrait::Hash));
    assert!(ts.get_type(TUPLE).has_impl(TypespaceTrait::Clone));
    // Built-in types.
    assert!(ts.get_type(STRING).has_impl(TypespaceTrait::Display));
    assert!(!ts.get_type(FLOAT).has_impl(TypespaceTrait::Ord));
    // A native declaring nothing provides nothing.
    assert!(!ts.get_type(DATE).has_impl(TypespaceTrait::Clone));
}

#[test]
fn view_iter_types_in_id_order() {
    let ts = typespace();
    assert_eq!(ts.iter_types().len(), 13);
    let names: Vec<Option<&str>> = ts.iter_types().iter().map(|t| t.name()).collect();
    assert_eq!(names[0], None);
    assert_eq!(names[3], Some("Point"));
    assert_eq!(names[4], Some("Shape"));
}

#[test]
fn view_names_types_and_builders() {
    let mut b = TypespaceBuilder::new(Settings::typical());
    b.insert(1, Type::Integer("u32".to_string())).unwrap();
    b.insert(2, Struct::new().name("Point").properties(vec![StructProperty::new("x", 1)]).build().unwrap()).unwrap();
    b.insert(3, Type::Vec(2)).unwrap();
    let ts = b.finalize(no_cycles).unwrap();
    assert_eq!(ts.get_type(3).ident(), "::std::vec::Vec<Point>");
    assert_eq!(ts.get_type(3).ident_in("super"), "::std::vec::Vec<super::Point>");
    assert_eq!(ts.get_type(2).builder_ident(None), Some("builder::Point".to_string()));
    assert_eq!(ts.get_type(2).builder_ident(Some("types")), Some("types::builder::Point".to_string()));
    assert_eq!(ts.get_type(3).builder_ident(None), None);
    assert_eq!(ts.ident(1), "u32");
}

#[test]
fn parameter_ident_passes_cheap_types_by_value_and_borrows_the_rest() {
    let mut b = TypespaceBuilder::new(Settings::minimal());
    b.insert(1, Type::Integer("u32".to_string())).unwrap();
    b.insert(2, Type::String).unwrap();
    b.insert(3, Type::Option(2)).unwrap();
    b.insert(4, Type::Tuple(vec![1, 2])).unwrap();
    b.insert(5, Struct::new().name("Point").properties(vec![StructProperty::new("x", 1)]).build().unwrap()).unwrap();
    b.insert(6, Type::Vec(5)).unwrap();
    b.insert(
        7,
        Enum::new()
            .name("Color")
            .tag_type(EnumTagType::External)
            .variants(vec![EnumVariant::new("Red", VariantDetails::Unit), EnumVariant::new("Blue", VariantDetails::Unit)])
            .build()
            .unwrap(),
    )
    .unwrap();
    b.insert(
        8,
        Enum::new()
            .name("Shape")
            .tag_type(EnumTagType::External)
            .variants(vec![EnumVariant::new("Dot", VariantDetails::Unit), EnumVariant::new("Line", VariantDetails::Item(1))])
            .build()
            .unwrap(),
    )
    .unwrap();
    b.insert(9, Type::Boolean).unwrap();
    let ts = b.finalize(no_cycles).unwrap();
    assert_eq!(ts.get_type(1).parameter_ident(None, None), "u32");
    assert_eq!(ts.get_type(9).parameter_ident(None, Some("'a")), "bool");
    assert_eq!(ts.get_type(2).parameter_ident(None, None), "&str");
    assert_eq!(ts.get_type(2).parameter_ident(None, Some("'a")), "&'a str");
    assert_eq!(ts.get_type(3).parameter_ident(None, None), "::std::option::Option<&str>");
    assert_eq!(ts.get_type(4).parameter_ident(None, Some("'a")), "(u32, &'a str)");
    assert_eq!(ts.get_type(5).parameter_ident(Some("types"), None), "&types::Point");
    assert_eq!(ts.get_type(6).parameter_ident(None, Some("'a")), "&'a ::std::vec::Vec<Point>");
    assert_eq!(ts.get_type(7).parameter_ident(Some("types"), Some("'a")), "types::Color");
    assert_eq!(ts.get_type(8).parameter_ident(None, None), "&Shape");
}
