use typespace::build::alias::TypeAlias;
use typespace::build::enums::{Enum, EnumTagType, EnumVariant, VariantDetails};
use typespace::build::native::Native;
use typespace::build::structs::{
    NewtypeConstraints, NewtypeStruct, Struct, StructProperty, StructPropertySerde, StructPropertyState, TupleStruct,
};
use typespace::build::Type;
use typespace::error::{Error, NameAxis};
use typespace::finalize::{no_cycles, Typespace, TypespaceBuilder};
use typespace::json::JsonValue;
use typespace::settings::{ContainerType, OptionalNullable, Settings};
use typespace::{TraitProvision, TypespaceTrait, TypespaceTraitSet};

fn finalize(settings: Settings, types: Vec<(u64, Type)>) -> Result<Typespace, Error> {
    let mut builder = TypespaceBuilder::new(settings);
    for (id, ty) in types {
        builder.insert(id, ty).unwrap();
    }
    builder.finalize(no_cycles)
}

fn named_struct(name: &str, props: Vec<StructProperty>) -> Type {
    Struct::new().name(name).properties(props).build().unwrap()
}

#[test]
fn struct_without_name_is_rejected() {
    match Struct::new().build() {
        Err(Error::MissingTypeName { kind }) => assert_eq!(kind, "struct"),
        other => panic!("unexpected: {other:?}"),
    }
}

#[test]
fn invalid_identifiers_are_rejected() {
    match Struct::new().name("not valid").build() {
        Err(Error::InvalidName { kind, name, .. }) => {
            assert_eq!(kind, "struct");
            assert_eq!(name, "not valid");
        },
        other => panic!("unexpected: {other:?}"),
    }
    assert!(matches!(TypeAlias::new(1).name("fn").build(), Err(Error::InvalidName { .. })));
    assert!(matches!(TypeAlias::new(1).name("r#fn").build(), Err(Error::InvalidName { .. })));
    assert!(matches!(TypeAlias::new(1).name("gen").build(), Err(Error::InvalidName { .. })));
    assert!(TypeAlias::new(1).name("_Private9").build().is_ok());
}

#[test]
fn enum_without_tag_type_is_rejected() {
    match Enum::new().name("E").variants(vec![EnumVariant::new("A", VariantDetails::Unit)]).build() {
        Err(Error::MissingTagType { name }) => assert_eq!(name, "E"),
        other => panic!("unexpected: {other:?}"),
    }
}

#[test]
fn fieldless_tuple_struct_is_rejected() {
    match TupleStruct::new().name("Empty").build() {
        Err(Error::FieldlessTupleStruct { name, alternative }) => {
            assert_eq!(name, "Empty");
            assert_eq!(alternative, "UnitStruct");
        },
        other => panic!("unexpected: {other:?}"),
    }
    match TupleStruct::new().name("Rest").rest(3).build() {
        Err(Error::FieldlessTupleStruct { alternative, .. }) => assert_eq!(alternative, "NewtypeStruct"),
        other => panic!("unexpected: {other:?}"),
    }
    assert!(TupleStruct::new().name("One").fields(vec![1]).build().is_ok());
}

#[test]
fn duplicate_property_names_are_rejected_on_each_axis() {
    let rust_clash = Struct::new()
        .name("S")
        .properties(vec![StructProperty::new("a", 1), StructProperty::new("a", 2)])
        .build();
    match rust_clash {
        Err(Error::DuplicateItemName { kind, owner_name, name, axis }) => {
            assert_eq!(kind, "property");
            assert_eq!(owner_name, "S");
            assert_eq!(name, "a");
            assert_eq!(axis, NameAxis::Rust);
        },
        other => panic!("unexpected: {other:?}"),
    }
    let wire_clash = Struct::new()
        .name("S")
        .properties(vec![
            StructProperty::new("a", 1),
            StructProperty::new("b", 2).with_json_name(StructPropertySerde::Rename("a".to_string())),
        ])
        .build();
    match wire_clash {
        Err(Error::DuplicateItemName { name, axis, .. }) => {
            assert_eq!(name, "a");
            assert_eq!(axis, NameAxis::Wire);
        },
        other => panic!("unexpected: {other:?}"),
    }
    // Flattened properties have no wire name of their own.
    let flattened = Struct::new()
        .name("S")
        .properties(vec![
            StructProperty::new("a", 1).with_json_name(StructPropertySerde::Flatten),
            StructProperty::new("b", 2).with_json_name(StructPropertySerde::Flatten),
        ])
        .build();
    assert!(flattened.is_ok());
}

#[test]
fn duplicate_variant_names_are_rejected() {
    let e = Enum::new()
        .name("E")
        .tag_type(EnumTagType::External)
        .variants(vec![
            EnumVariant::new("A", VariantDetails::Unit),
            EnumVariant::new("B", VariantDetails::Unit).with_rename("A"),
        ])
        .build();
    match e {
        Err(Error::DuplicateItemName { kind, axis, .. }) => {
            assert_eq!(kind, "variant");
            assert_eq!(axis, NameAxis::Wire);
        },
        other => panic!("unexpected: {other:?}"),
    }
}

#[test]
fn flatten_with_deny_unknown_fields_is_rejected() {
    let s = Struct::new()
        .name("Strict")
        .properties(vec![
            StructProperty::new("a", 1),
            StructProperty::new("rest", 2).with_json_name(StructPropertySerde::Flatten),
            StructProperty::new("more", 3).with_json_name(StructPropertySerde::Flatten),
        ])
        .deny_unknown_fields()
        .build();
    match s {
        Err(Error::FlattenWithDenyUnknownFields { owner_name, property }) => {
            assert_eq!(owner_name, "Strict");
            assert_eq!(property, "rest");
        },
        other => panic!("unexpected: {other:?}"),
    }
}

#[test]
fn vacuous_newtype_constraints_are_rejected() {
    let string = NewtypeStruct::new(1)
        .name("Text")
        .constraints(NewtypeConstraints::String { min: None, max: None, patterns: Vec::new() })
        .build();
    match string {
        Err(Error::VacuousConstraints { name, kind }) => {
            assert_eq!(name, "Text");
            assert_eq!(kind, "string");
        },
        other => panic!("unexpected: {other:?}"),
    }
    let allow = NewtypeStruct::new(1).name("A").constraints(NewtypeConstraints::AllowList(Vec::new())).build();
    assert!(matches!(allow, Err(Error::VacuousConstraints { kind: "allow list", .. })));
    let deny = NewtypeStruct::new(1).name("D").constraints(NewtypeConstraints::DenyList(Vec::new())).build();
    assert!(matches!(deny, Err(Error::VacuousConstraints { kind: "deny list", .. })));
    let bounded = NewtypeStruct::new(1)
        .name("Short")
        .constraints(NewtypeConstraints::String { min: None, max: Some(8), patterns: Vec::new() })
        .build();
    assert!(bounded.is_ok());
    let listed = NewtypeStruct::new(1)
        .name("Listed")
        .constraints(NewtypeConstraints::AllowList(vec![JsonValue::Null]))
        .build();
    assert!(listed.is_ok());
}

#[test]
fn native_parameter_count_must_match_obligations() {
    let native = Native::new("::my::Wrapper", TypespaceTraitSet::empty(), vec![1]).with_obligations(Vec::new());
    match native.validate() {
        Err(Error::NativeParameterCount { path, declared, parameters }) => {
            assert_eq!(path, "::my::Wrapper");
            assert_eq!(declared, 0);
            assert_eq!(parameters, 1);
        },
        other => panic!("unexpected: {other:?}"),
    }
}

#[test]
fn duplicate_type_id_is_rejected_at_insert() {
    let mut builder = TypespaceBuilder::new(Settings::minimal());
    builder.insert(1, Type::String).unwrap();
    match builder.insert(1, Type::Boolean) {
        Err(Error::DuplicateTypeId { type_id }) => assert_eq!(type_id, 1),
        other => panic!("unexpected: {other:?}"),
    }
    assert!(builder.contains_type(1));
    assert!(!builder.contains_type(2));
}

#[test]
fn unknown_type_id_is_reported() {
    let r = finalize(Settings::minimal(), vec![(1, Type::Vec(7))]);
    match r {
        Err(Error::UnknownTypeId { type_id, child_id }) => {
            assert_eq!(type_id, 1);
            assert_eq!(child_id, 7);
        },
        other => panic!("unexpected: {:?}", other.err()),
    }
}

#[test]
fn duplicate_type_names_are_reported() {
    let r = finalize(
        Settings::minimal(),
        vec![(1, Type::String), (2, named_struct("Same", vec![])), (5, named_struct("Same", vec![StructProperty::new("s", 1)]))],
    );
    match r {
        Err(Error::DuplicateTypeName { name, first, second }) => {
            assert_eq!(name, "Same");
            assert_eq!(first, 2);
            assert_eq!(second, 5);
        },
        other => panic!("unexpected: {:?}", other.err()),
    }
}

#[test]
fn invalid_derive_is_reported() {
    let r = finalize(Settings::minimal().with_derive("not a path!"), vec![(1, Type::String)]);
    match r {
        Err(Error::InvalidDerive { derive, .. }) => assert_eq!(derive, "not a path!"),
        other => panic!("unexpected: {:?}", other.err()),
    }
    assert!(finalize(Settings::minimal().with_derive("::schemars::JsonSchema"), vec![(1, Type::String)]).is_ok());
}

#[test]
fn container_parameter_count_is_reported() {
    let settings = Settings::minimal().with_map_type(ContainerType::vec());
    match finalize(settings, vec![(1, Type::String)]) {
        Err(Error::ContainerParameterCount { position, declared, parameters, .. }) => {
            assert_eq!(position, "map");
            assert_eq!(declared, 1);
            assert_eq!(parameters, 2);
        },
        other => panic!("unexpected: {:?}", other.err()),
    }
}

#[test]
fn container_answering_unknown_is_reported() {
    let vec = ContainerType::vec().with_provision(TypespaceTrait::Hash, TraitProvision::Unknown);
    match finalize(Settings::minimal().with_vec_type(vec), vec![(1, Type::String)]) {
        Err(Error::ContainerProvisionUnknown { position, trait_, .. }) => {
            assert_eq!(position, "vec");
            assert_eq!(trait_, TypespaceTrait::Hash);
        },
        other => panic!("unexpected: {:?}", other.err()),
    }
}

#[test]
fn optional_nullable_wrapper_must_have_default() {
    let wrapper = ContainerType::option().with_provision(TypespaceTrait::Default, TraitProvision::IfParameters);
    let settings = Settings::minimal().with_optional_nullable(OptionalNullable::CustomType(wrapper));
    match finalize(settings, vec![(1, Type::String)]) {
        Err(Error::OptionalNullableWrapperDefault { provision, .. }) => {
            assert_eq!(provision, TraitProvision::IfParameters)
        },
        other => panic!("unexpected: {:?}", other.err()),
    }
    let settings = Settings::minimal().with_optional_nullable(OptionalNullable::CustomType(ContainerType::option()));
    assert!(finalize(settings, vec![(1, Type::String)]).is_ok());
}

#[test]
fn never_in_value_position_is_reported() {
    let r = finalize(
        Settings::minimal(),
        vec![(1, Type::Never), (2, named_struct("S", vec![StructProperty::new("gone", 1)]))],
    );
    match r {
        Err(Error::NeverInValuePosition { name, type_id, .. }) => {
            assert_eq!(name, "gone");
            assert_eq!(type_id, 2);
        },
        other => panic!("unexpected: {:?}", other.err()),
    }
    // An optional property may have the never type.
    let r = finalize(
        Settings::minimal(),
        vec![
            (1, Type::Never),
            (2, named_struct("S", vec![StructProperty::new("gone", 1).with_state(StructPropertyState::Optional)])),
        ],
    );
    assert!(r.is_ok());
}

#[test]
fn anonymous_cycle_is_reported() {
    // Two options containing each other: the cycle passes through no
    // named type, so the box that breaks its size leaves it anonymous.
    let mut builder = TypespaceBuilder::new(Settings::minimal());
    builder.insert(1, Type::Option(2)).unwrap();
    builder.insert(2, Type::Option(1)).unwrap();
    let r = builder.finalize(|id: &u64| id + 100);
    match r {
        Err(Error::AnonymousCycle { type_id, child_id }) => {
            assert!([1, 2, 101, 102].contains(&type_id));
            assert!([1, 2, 101, 102].contains(&child_id));
        },
        other => panic!("unexpected: {:?}", other.err()),
    }
}

#[test]
fn checks_report_the_first_failure_in_order() {
    // A bad derive is reported before a dangling reference.
    let r = finalize(Settings::minimal().with_derive("not a path!"), vec![(1, Type::Vec(9))]);
    assert!(matches!(r, Err(Error::InvalidDerive { .. })));
    // A dangling reference is reported before a duplicate name.
    let r = finalize(
        Settings::minimal(),
        vec![(1, named_struct("Same", vec![])), (2, named_struct("Same", vec![])), (3, Type::Vec(9))],
    );
    assert!(matches!(r, Err(Error::UnknownTypeId { .. })));
}

#[test]
fn contained_cycle_through_named_type_is_boxed() {
    // A struct holding itself directly needs a box, whose ID the caller
    // supplies.
    let mut builder = TypespaceBuilder::new(Settings::minimal());
    builder.insert(1, named_struct("Node", vec![StructProperty::new("next", 2)])).unwrap();
    builder.insert(2, Type::Option(1)).unwrap();
    let ts = builder.finalize(|id: &u64| id + 100).unwrap();
    let all = ts.iter_types();
    assert_eq!(all.len(), 3);
    let boxes = all
        .iter()
        .filter(|t| matches!(t.details(), typespace::view::TypeDetails::Box(inner) if inner == 1 || inner == 2))
        .count();
    assert_eq!(boxes, 1);
}

fn pairs(v: Vec<(u64, String)>) -> Vec<(u64, &'static str)> {
    v.into_iter().map(|(id, s)| (id, &*Box::leak(s.into_boxed_str()))).collect()
}

#[test]
fn children_with_context_names_each_child() {
    let e = Enum::new()
        .name("E")
        .tag_type(EnumTagType::External)
        .variants(vec![
            EnumVariant::new("A", VariantDetails::Unit),
            EnumVariant::new("B", VariantDetails::Item(1)),
            EnumVariant::new("C", VariantDetails::Tuple(vec![1, 2])),
            EnumVariant::new("D", VariantDetails::Struct(vec![StructProperty::new("x", 3)])),
        ])
        .build()
        .unwrap();
    assert_eq!(pairs(e.children_with_context()), vec![(1, "B"), (1, "C.0"), (2, "C.1"), (3, "D.x")]);

    let t = TupleStruct::new().name("T").fields(vec![1, 2]).rest(3).build().unwrap();
    assert_eq!(pairs(t.children_with_context()), vec![(1, "0"), (2, "1"), (3, "2")]);

    let s = named_struct("S", vec![StructProperty::new("a", 4), StructProperty::new("b", 5)]);
    assert_eq!(pairs(s.children_with_context()), vec![(4, "a"), (5, "b")]);

    assert_eq!(pairs(Type::MapOf(1, 2).children_with_context()), vec![(1, "key"), (2, "value")]);
    assert_eq!(pairs(Type::Option(7).children_with_context()), vec![(7, "")]);
    assert_eq!(pairs(Type::Array(7, 3).children_with_context()), vec![(7, "item")]);
    assert_eq!(pairs(Type::Tuple(vec![8, 9]).children_with_context()), vec![(8, "0"), (9, "1")]);
    assert_eq!(pairs(NewtypeStruct::new(6).name("N").build().unwrap().children_with_context()), vec![(6, "inner")]);
    // An alias and a native confer no naming context.
    assert!(TypeAlias::new(1).name("A").build().unwrap().children_with_context().is_empty());
    let native = Type::Native(Native::new("::my::Wrapper", TypespaceTraitSet::empty(), vec![1]));
    assert!(native.children_with_context().is_empty());
    assert!(native.children() == vec![1]);
}

#[test]
fn builder_setters_are_read_back_by_getters() {
    let s = Struct::new()
        .name("S")
        .description("a struct")
        .default(JsonValue::Null)
        .extra_derives(vec!["Hash".to_string()])
        .extra_attrs(vec!["#[allow(dead_code)]".to_string()]);
    assert_eq!(s.get_name(), Some("S"));
    assert_eq!(s.get_description(), Some("a struct"));
    assert!(s.get_default() == Some(&JsonValue::Null));
    assert_eq!(s.get_extra_derives(), &["Hash".to_string()]);
    assert_eq!(s.get_extra_attrs(), &["#[allow(dead_code)]".to_string()]);

    let plain = Struct::new();
    assert_eq!(plain.get_name(), None);
    assert_eq!(plain.get_description(), None);
    assert!(plain.get_default().is_none());
    assert!(plain.get_extra_derives().is_empty());

    let v = EnumVariant::new("A", VariantDetails::Unit);
    assert_eq!(v.rename(), None);
    assert_eq!(v.description(), None);
    assert_eq!(v.json_name(), "A");
    let v = v.with_rename("a").with_description("first");
    assert_eq!(v.rename(), Some("a"));
    assert_eq!(v.description(), Some("first"));
    assert_eq!(v.json_name(), "a");
    assert_eq!(v.rust_name(), "A");

    let alias = TypeAlias::new(1).name("Alias").description("an alias");
    assert_eq!(alias.get_name(), Some("Alias"));
    assert_eq!(alias.get_description(), Some("an alias"));
}

#[test]
fn keyword_surrounded_by_space_is_not_an_identifier() {
    match typespace::build::common::validate_ident("struct", " self") {
        Err(Error::InvalidName { message, .. }) => {
            assert_eq!(message, "is not a valid Rust identifier (raw identifiers are not supported)")
        },
        other => panic!("unexpected: {other:?}"),
    }
    match typespace::build::common::validate_ident("struct", "self") {
        Err(Error::InvalidName { message, .. }) => assert_eq!(message, "is a Rust keyword"),
        other => panic!("unexpected: {other:?}"),
    }
}
