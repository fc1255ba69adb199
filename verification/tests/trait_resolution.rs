use typespace::build::alias::TypeAlias;
use typespace::build::enums::{Enum, EnumTagType, EnumVariant, VariantDetails};
use typespace::build::native::Native;
use typespace::build::structs::{
    NewtypeStruct, Struct, StructProperty, StructPropertySerde, StructPropertyState, TupleStruct, UnitStruct,
};
use typespace::build::Type;
use typespace::error::{Error, OffenderReason, Relation, RequirementOrigin};
use typespace::trait_resolution::{feasibility, Feasibility};
use typespace::finalize::{no_cycles, Typespace, TypespaceBuilder};
use typespace::json::{JsonMember, JsonNumber, JsonValue};
use typespace::settings::{ContainerType, Settings};
use typespace::{TraitProvision, TypespaceTrait, TypespaceTraitSet};

/// A type graph under construction: types are keyed by a name (the Rust
/// spelling for anonymous types), and each key gets an ID on first use.
struct G {
    keys: Vec<(String, u64)>,
    types: Vec<(u64, Type)>,
    settings: Settings,
}

impl G {
    fn new(settings: Settings) -> G {
        G { keys: Vec::new(), types: Vec::new(), settings }
    }

    fn id(&mut self, key: &str) -> u64 {
        if let Some((_, id)) = self.keys.iter().find(|(k, _)| k == key) {
            return *id;
        }
        let id = self.keys.len() as u64 + 1;
        self.keys.push((key.to_string(), id));
        id
    }

    fn add(&mut self, key: &str, ty: Type) -> u64 {
        let id = self.id(key);
        if !self.types.iter().any(|(t, _)| *t == id) {
            self.types.push((id, ty));
        }
        id
    }

    fn integer(&mut self, name: &str) -> u64 {
        self.add(name, Type::Integer(name.to_string()))
    }

    fn u32(&mut self) -> u64 {
        self.integer("u32")
    }

    fn string(&mut self) -> u64 {
        self.add("String", Type::String)
    }

    fn boolean(&mut self) -> u64 {
        self.add("bool", Type::Boolean)
    }

    fn f64(&mut self) -> u64 {
        self.add("f64", Type::Float("f64".to_string()))
    }

    fn json(&mut self) -> u64 {
        self.add("Value", Type::JsonValue)
    }

    fn never(&mut self) -> u64 {
        self.add("!", Type::Never)
    }

    fn unit(&mut self) -> u64 {
        self.add("()", Type::Unit)
    }

    fn vec(&mut self, e: u64) -> u64 {
        self.add(&format!("Vec<{e}>"), Type::Vec(e))
    }

    fn option(&mut self, e: u64) -> u64 {
        self.add(&format!("Option<{e}>"), Type::Option(e))
    }

    fn boxed(&mut self, e: u64) -> u64 {
        self.add(&format!("Box<{e}>"), Type::Box(e))
    }

    fn map(&mut self, k: u64, v: u64) -> u64 {
        self.add(&format!("Map<{k}, {v}>"), Type::MapOf(k, v))
    }

    fn set(&mut self, e: u64) -> u64 {
        self.add(&format!("Set<{e}>"), Type::SetOf(e))
    }

    fn array(&mut self, e: u64, n: usize) -> u64 {
        self.add(&format!("[{e}; {n}]"), Type::Array(e, n))
    }

    fn tuple(&mut self, items: Vec<u64>) -> u64 {
        self.add(&format!("{items:?}"), Type::Tuple(items))
    }

    fn native(&mut self, native: Native) -> u64 {
        let key = native.path().to_string();
        self.add(&key, Type::Native(native))
    }

    fn strukt(&mut self, name: &str, props: Vec<StructProperty>) -> u64 {
        let ty = Struct::new().name(name).properties(props).build().unwrap();
        self.add(name, ty)
    }

    fn strukt_with_default(&mut self, name: &str, props: Vec<StructProperty>, default: JsonValue) -> u64 {
        let ty = Struct::new().name(name).properties(props).default(default).build().unwrap();
        self.add(name, ty)
    }

    fn enumeration(&mut self, name: &str, tag: EnumTagType, variants: Vec<EnumVariant>) -> u64 {
        let ty = Enum::new().name(name).tag_type(tag).variants(variants).build().unwrap();
        self.add(name, ty)
    }

    fn alias(&mut self, name: &str, target: u64) -> u64 {
        let ty = TypeAlias::new(target).name(name).build().unwrap();
        self.add(name, ty)
    }

    fn newtype(&mut self, name: &str, inner: u64) -> u64 {
        let ty = NewtypeStruct::new(inner).name(name).build().unwrap();
        self.add(name, ty)
    }

    fn builder(self) -> TypespaceBuilder {
        let mut builder = TypespaceBuilder::new(self.settings);
        for (id, ty) in self.types {
            builder.insert(id, ty).unwrap();
        }
        builder
    }

    fn finalize(self) -> Result<Typespace, Error> {
        self.builder().finalize(no_cycles)
    }

    fn unit_struct(&mut self, name: &str, repr: JsonValue) -> u64 {
        let ty = UnitStruct::new(repr).name(name).build().unwrap();
        self.add(name, ty)
    }

    fn tuple_struct(&mut self, name: &str, fields: Vec<u64>, rest: Option<u64>) -> u64 {
        let mut t = TupleStruct::new().name(name).fields(fields);
        if let Some(rest) = rest {
            t = t.rest(rest);
        }
        let ty = t.build().unwrap();
        self.add(name, ty)
    }

    fn enum_with_default(&mut self, name: &str, variants: Vec<EnumVariant>, default: JsonValue) -> u64 {
        let ty = Enum::new()
            .name(name)
            .tag_type(EnumTagType::External)
            .variants(variants)
            .default(default)
            .build()
            .unwrap();
        self.add(name, ty)
    }
}

/// A native declared with `impls` and no parameters.
fn native_decl(path: &str, impls: &[TypespaceTrait]) -> Native {
    Native::new(path, trait_set(impls), Vec::new())
}

/// [`Settings::minimal`] with each of `traits` desired.
fn minimal_with_desired(traits: &[TypespaceTrait]) -> Settings {
    traits.iter().fold(Settings::minimal(), |s, t| s.with_desired_trait(*t))
}

fn json_str(s: &str) -> JsonValue {
    JsonValue::String(s.to_string())
}

fn json_int(n: u64) -> JsonValue {
    JsonValue::Number(JsonNumber::PosInt(n))
}

fn json_object(members: Vec<(&str, JsonValue)>) -> JsonValue {
    JsonValue::Object(
        members
            .into_iter()
            .map(|(key, value)| JsonMember { key: key.to_string(), value })
            .collect(),
    )
}

fn external(g: &mut G, name: &str, variants: Vec<EnumVariant>) -> u64 {
    g.enumeration(name, EnumTagType::External, variants)
}

fn color(g: &mut G) -> u64 {
    external(g, "Color", vec![unit_variant("Red"), unit_variant("Green")])
}

fn prop(name: &str, id: u64) -> StructProperty {
    StructProperty::new(name, id)
}

fn default_prop(name: &str, id: u64) -> StructProperty {
    StructProperty::new(name, id).with_state(StructPropertyState::Default)
}

fn optional_prop(name: &str, id: u64) -> StructProperty {
    StructProperty::new(name, id).with_state(StructPropertyState::Optional)
}

fn unit_variant(name: &str) -> EnumVariant {
    EnumVariant::new(name, VariantDetails::Unit)
}

fn item_variant(name: &str, id: u64) -> EnumVariant {
    EnumVariant::new(name, VariantDetails::Item(id))
}

fn trait_set(traits: &[TypespaceTrait]) -> TypespaceTraitSet {
    let mut set = TypespaceTraitSet::empty();
    for t in traits {
        set.add(*t);
    }
    set
}

/// The built trait set of the named type with `id`.
fn built_traits(typespace: &Typespace, id: u64) -> TypespaceTraitSet {
    typespace.built_traits(id).unwrap()
}

fn conflicts_of(result: Result<Typespace, Error>) -> Vec<typespace::error::TraitConflict> {
    let Err(err) = result else {
        panic!("finalization unexpectedly succeeded");
    };
    let Error::TraitConflicts { conflicts } = err else {
        panic!("expected TraitConflicts, got: {err:?}");
    };
    conflicts
}

#[test]
fn required_propagates_through_struct_graph() {
    let mut g = G::new(Settings::typical());
    let u32_id = g.u32();
    let inner = g.strukt("Inner", vec![prop("count", u32_id)]);
    let string = g.string();
    let outer = g.strukt("Outer", vec![prop("name", string), prop("inner", inner)]);
    let typespace = g.finalize().unwrap();

    let expected = trait_set(&[
        TypespaceTrait::Clone,
        TypespaceTrait::Debug,
        TypespaceTrait::Serialize,
        TypespaceTrait::Deserialize,
    ]);
    assert_eq!(built_traits(&typespace, outer), expected);
    assert_eq!(built_traits(&typespace, inner), expected);
}

#[test]
fn map_key_conflict_reports_path() {
    let mut g = G::new(Settings::minimal());
    let f64_id = g.f64();
    let key = g.strukt("KeyStruct", vec![prop("weight", f64_id)]);
    let string = g.string();
    let map = g.map(key, string);
    g.alias("KeyStructMap", map);
    let conflicts = conflicts_of(g.finalize());

    assert_eq!(conflicts.len(), 2, "conflicts: {conflicts:#?}");
    for required in [TypespaceTrait::Eq, TypespaceTrait::Ord] {
        let conflict = conflicts
            .iter()
            .find(|conflict| conflict.required == required)
            .unwrap_or_else(|| panic!("no conflict for {}", required.name()));
        assert!(matches!(
            &conflict.origin,
            RequirementOrigin::ContainerParameter { container, relation }
                if *container == map && matches!(relation, Relation::Key)
        ));
        assert_eq!(conflict.offender, f64_id);
        assert!(matches!(
            &conflict.reason,
            OffenderReason::Primitive { owner_name } if owner_name == "f64"
        ));
        assert_eq!(conflict.path.len(), 1, "path: {:#?}", conflict.path);
        assert_eq!(conflict.path[0].type_id, key);
        assert!(matches!(
            &conflict.path[0].relation,
            Relation::Field(name) if name == "weight"
        ), "{conflict:#?}");
    }
}

#[test]
fn serde_default_property_conflicts_when_type_cannot_default() {
    let mut g = G::new(Settings::minimal());
    let u32_id = g.u32();
    let inner = g.strukt("Inner", vec![prop("count", u32_id)]);
    let outer = g.strukt("Outer", vec![default_prop("inner", inner)]);
    let conflicts = conflicts_of(g.finalize());

    assert_eq!(conflicts.len(), 1, "conflicts: {conflicts:#?}");
    let conflict = &conflicts[0];
    assert_eq!(conflict.required, TypespaceTrait::Default);
    assert!(matches!(&conflict.origin, RequirementOrigin::PropertyDefault(id) if *id == outer));
    assert_eq!(conflict.offender, inner);
    assert!(matches!(
        &conflict.reason,
        OffenderReason::TypeCannotImplement { kind } if *kind == "struct"
    ));
    assert_eq!(conflict.path.len(), 1, "path: {:#?}", conflict.path);
    assert_eq!(conflict.path[0].type_id, outer);
    assert!(matches!(&conflict.path[0].relation, Relation::Field(name) if name == "inner"));
}

#[test]
fn serde_default_property_in_variant_conflicts() {
    let mut g = G::new(Settings::minimal());
    let u32_id = g.u32();
    let inner = g.strukt("Inner", vec![prop("count", u32_id)]);
    let shape = external(
        &mut g,
        "Shape",
        vec![EnumVariant::new("Rect", VariantDetails::Struct(vec![default_prop("inner", inner)]))],
    );
    let conflicts = conflicts_of(g.finalize());

    assert_eq!(conflicts.len(), 1, "conflicts: {conflicts:#?}");
    let conflict = &conflicts[0];
    assert_eq!(conflict.required, TypespaceTrait::Default);
    assert!(matches!(&conflict.origin, RequirementOrigin::PropertyDefault(id) if *id == shape));
    assert_eq!(conflict.offender, inner);
    assert_eq!(conflict.path.len(), 1, "path: {:#?}", conflict.path);
    assert_eq!(conflict.path[0].type_id, shape);
    assert!(matches!(&conflict.path[0].relation, Relation::Field(name) if name == "inner"));
}

#[test]
fn serde_default_property_grants_default_to_its_type() {
    let mut g = G::new(Settings::minimal());
    let u32_id = g.u32();
    let inner = g.strukt("Inner", vec![default_prop("count", u32_id)]);
    let outer = g.strukt("Outer", vec![default_prop("inner", inner)]);
    let typespace = g.finalize().unwrap();

    assert_eq!(built_traits(&typespace, inner), trait_set(&[TypespaceTrait::Default]));
    assert_eq!(built_traits(&typespace, outer), TypespaceTraitSet::empty());
}

#[test]
fn serde_default_property_requirement_stops_at_vec() {
    let mut g = G::new(Settings::minimal());
    let u32_id = g.u32();
    let tag = g.strukt("Tag", vec![prop("id", u32_id)]);
    let tags = g.vec(tag);
    let s = g.strukt("S", vec![default_prop("tags", tags)]);
    let typespace = g.finalize().unwrap();

    assert_eq!(built_traits(&typespace, tag), TypespaceTraitSet::empty());
    assert_eq!(built_traits(&typespace, s), TypespaceTraitSet::empty());
}

#[test]
fn required_display_on_struct_conflicts() {
    let mut g = G::new(Settings::minimal().with_required_trait(TypespaceTrait::Display));
    let string = g.string();
    let s = g.strukt("S", vec![prop("s", string)]);
    let conflicts = conflicts_of(g.finalize());

    assert_eq!(conflicts.len(), 1, "conflicts: {conflicts:#?}");
    let conflict = &conflicts[0];
    assert_eq!(conflict.required, TypespaceTrait::Display);
    assert!(matches!(conflict.origin, RequirementOrigin::GlobalSettings));
    assert_eq!(conflict.offender, s);
    assert!(conflict.path.is_empty(), "path: {:#?}", conflict.path);
    assert!(matches!(conflict.reason, OffenderReason::TypeCannotImplement { kind: "struct" }));
}

#[test]
fn required_display_on_option_conflicts() {
    let mut g = G::new(Settings::minimal().with_required_trait(TypespaceTrait::Display));
    let string = g.string();
    let nullable = g.option(string);
    g.newtype("Wrapper", nullable);
    let conflicts = conflicts_of(g.finalize());

    assert_eq!(conflicts.len(), 1, "conflicts: {conflicts:#?}");
    let conflict = &conflicts[0];
    assert_eq!(conflict.required, TypespaceTrait::Display);
    assert_eq!(conflict.offender, nullable);
    assert!(matches!(&conflict.reason, OffenderReason::Primitive { owner_name } if owner_name == "Option"));
}

#[test]
fn required_fromstr_on_option_conflicts() {
    let mut g = G::new(Settings::minimal().with_required_trait(TypespaceTrait::FromStr));
    let string = g.string();
    let nullable = g.option(string);
    g.newtype("Wrapper", nullable);
    let conflicts = conflicts_of(g.finalize());

    assert_eq!(conflicts.len(), 1, "conflicts: {conflicts:#?}");
    let conflict = &conflicts[0];
    assert_eq!(conflict.required, TypespaceTrait::FromStr);
    assert_eq!(conflict.offender, nullable);
    assert!(matches!(&conflict.reason, OffenderReason::Primitive { owner_name } if owner_name == "Option"));
}

#[test]
fn required_display_on_box_conflicts() {
    let mut g = G::new(Settings::minimal().with_required_trait(TypespaceTrait::Display));
    let string = g.string();
    let boxed = g.boxed(string);
    g.newtype("Wrapper", boxed);
    let conflicts = conflicts_of(g.finalize());

    assert_eq!(conflicts.len(), 1, "conflicts: {conflicts:#?}");
    let conflict = &conflicts[0];
    assert_eq!(conflict.required, TypespaceTrait::Display);
    assert!(matches!(&conflict.reason, OffenderReason::Primitive { owner_name } if owner_name == "Box"));
}

#[test]
fn option_forwards_supported_trait_to_element() {
    let mut g = G::new(Settings::minimal());
    let color = color(&mut g);
    let nullable = g.option(color);
    let set = g.set(nullable);
    g.alias("ColorSet", set);
    let typespace = g.finalize().unwrap();

    let expected = trait_set(&[
        TypespaceTrait::Eq,
        TypespaceTrait::PartialEq,
        TypespaceTrait::Ord,
        TypespaceTrait::PartialOrd,
    ]);
    assert_eq!(built_traits(&typespace, color), expected);
}

#[test]
fn option_default_satisfied_without_reaching_element() {
    let settings = Settings::minimal()
        .with_set_type(ContainerType::hash_set().with_obligations(vec![trait_set(&[TypespaceTrait::Default])]));
    let mut g = G::new(settings);
    let color = color(&mut g);
    let nullable = g.option(color);
    let set = g.set(nullable);
    g.alias("ColorSet", set);
    let typespace = g.finalize().unwrap();

    assert!(built_traits(&typespace, color).is_empty());
}

#[test]
fn required_display_on_simple_enum_accepted() {
    let mut g = G::new(
        Settings::minimal()
            .with_required_trait(TypespaceTrait::Display)
            .with_required_trait(TypespaceTrait::FromStr),
    );
    let color = color(&mut g);
    let typespace = g.finalize().unwrap();

    assert_eq!(built_traits(&typespace, color), trait_set(&[TypespaceTrait::Display, TypespaceTrait::FromStr]));
}

#[test]
fn never_field_satisfies_typical_settings() {
    let mut g = G::new(Settings::typical());
    let never = g.never();
    let s = g.strukt("S", vec![optional_prop("gone", never)]);
    let typespace = g.finalize().unwrap();

    let expected = trait_set(&[
        TypespaceTrait::Clone,
        TypespaceTrait::Debug,
        TypespaceTrait::Serialize,
        TypespaceTrait::Deserialize,
    ]);
    assert_eq!(built_traits(&typespace, s), expected);
}

#[test]
fn required_display_conflicts_on_never_field() {
    let mut g = G::new(Settings::minimal().with_required_trait(TypespaceTrait::Display));
    let never = g.never();
    let wrapper = g.newtype("Wrapper", never);
    let Err(err) = g.finalize() else {
        panic!("finalization unexpectedly succeeded");
    };
    let Error::NeverInTransparentWrapper { wrapper: kind, type_id } = err else {
        panic!("expected NeverInTransparentWrapper, got: {err:?}");
    };
    assert_eq!(kind, "newtype struct");
    assert_eq!(type_id, wrapper);
}

#[test]
fn supertrait_closure_expands_ord() {
    let mut g = G::new(Settings::minimal().with_required_trait(TypespaceTrait::Ord));
    let string = g.string();
    let s = g.strukt("S", vec![prop("name", string)]);
    let typespace = g.finalize().unwrap();

    let expected = trait_set(&[
        TypespaceTrait::Ord,
        TypespaceTrait::PartialOrd,
        TypespaceTrait::Eq,
        TypespaceTrait::PartialEq,
    ]);
    assert_eq!(built_traits(&typespace, s), expected);
}

#[test]
fn native_traits_add_no_supertraits() {
    let mut g = G::new(Settings::minimal());
    let date = g.native(native_decl(
        "::chrono::NaiveDate",
        &[TypespaceTrait::Eq, TypespaceTrait::PartialEq, TypespaceTrait::Ord, TypespaceTrait::PartialOrd],
    ));
    let string = g.string();
    let map = g.map(date, string);
    g.alias("DateMap", map);
    g.finalize().expect("finalization succeeds");

    let mut g = G::new(Settings::minimal());
    let date = g.native(native_decl("::chrono::NaiveDate", &[TypespaceTrait::Ord]));
    let string = g.string();
    let map = g.map(date, string);
    g.alias("DateMap", map);
    let Err(Error::TraitConflicts { conflicts }) = g.finalize() else {
        panic!("expected finalization to report trait conflicts");
    };
    assert_eq!(conflicts.len(), 3, "conflicts: {conflicts:#?}");
    for conflict in &conflicts {
        assert_eq!(conflict.offender, date);
        assert!(matches!(
            &conflict.reason,
            OffenderReason::NativeMissingImpl { owner_name } if owner_name == "::chrono::NaiveDate"
        ));
    }
}

#[test]
fn desired_granted_on_capable_struct() {
    let mut g = G::new(minimal_with_desired(&[TypespaceTrait::Eq, TypespaceTrait::Hash]));
    let u32_id = g.u32();
    let string = g.string();
    let s = g.strukt("S", vec![prop("count", u32_id), prop("name", string)]);
    let typespace = g.finalize().unwrap();

    assert_eq!(
        built_traits(&typespace, s),
        trait_set(&[TypespaceTrait::Eq, TypespaceTrait::PartialEq, TypespaceTrait::Hash])
    );
}

#[test]
fn desired_request_closure_expands_ord() {
    let mut g = G::new(minimal_with_desired(&[TypespaceTrait::Ord]));
    let string = g.string();
    let s = g.strukt("S", vec![prop("name", string)]);
    let typespace = g.finalize().unwrap();

    assert_eq!(
        built_traits(&typespace, s),
        trait_set(&[TypespaceTrait::Ord, TypespaceTrait::PartialOrd, TypespaceTrait::Eq, TypespaceTrait::PartialEq])
    );
}

#[test]
fn desired_trait_already_required_survives() {
    let mut g = G::new(
        Settings::minimal()
            .with_required_trait(TypespaceTrait::Eq)
            .with_desired_trait(TypespaceTrait::Eq),
    );
    let u32_id = g.u32();
    let inner = g.strukt("Inner", vec![prop("count", u32_id)]);
    let outer = g.strukt("Outer", vec![prop("inner", inner)]);
    let typespace = g.finalize().unwrap();

    let expected = trait_set(&[TypespaceTrait::Eq, TypespaceTrait::PartialEq]);
    assert_eq!(built_traits(&typespace, outer), expected);
    assert_eq!(built_traits(&typespace, inner), expected);
}

#[test]
fn desired_forwards_through_alias() {
    let mut g = G::new(minimal_with_desired(&[TypespaceTrait::Clone, TypespaceTrait::Eq]));
    let u32_id = g.u32();
    let f64_id = g.f64();
    let capable = g.strukt("Capable", vec![prop("count", u32_id)]);
    let blocked = g.strukt("Blocked", vec![prop("weight", f64_id)]);
    let capable_alias = g.alias("CapableAlias", capable);
    let blocked_alias = g.alias("BlockedAlias", blocked);
    let typespace = g.finalize().unwrap();

    let with_eq = trait_set(&[TypespaceTrait::Clone, TypespaceTrait::Eq, TypespaceTrait::PartialEq]);
    assert_eq!(built_traits(&typespace, capable), with_eq);
    assert_eq!(built_traits(&typespace, capable_alias), with_eq);

    let without_eq = trait_set(&[TypespaceTrait::Clone]);
    assert_eq!(built_traits(&typespace, blocked), without_eq);
    assert_eq!(built_traits(&typespace, blocked_alias), without_eq);
}

#[test]
fn desired_evaluates_container_structure() {
    let mut g = G::new(minimal_with_desired(&[TypespaceTrait::Clone, TypespaceTrait::Eq]));
    let u32_id = g.u32();
    let string = g.string();
    let list = g.vec(u32_id);
    let lookup = g.map(string, u32_id);
    let unique = g.set(u32_id);
    let maybe = g.option(u32_id);
    let s = g.strukt(
        "S",
        vec![prop("list", list), prop("lookup", lookup), prop("unique", unique), prop("maybe", maybe)],
    );
    let typespace = g.finalize().unwrap();

    assert_eq!(
        built_traits(&typespace, s),
        trait_set(&[TypespaceTrait::Clone, TypespaceTrait::Eq, TypespaceTrait::PartialEq])
    );
}

#[test]
fn desired_blocked_by_container_parameter() {
    let mut g = G::new(minimal_with_desired(&[TypespaceTrait::Clone, TypespaceTrait::Eq]));
    let f64_id = g.f64();
    let string = g.string();
    let list = g.vec(f64_id);
    let lookup = g.map(string, f64_id);
    let maybe = g.option(f64_id);
    let in_vec = g.strukt("InVec", vec![prop("list", list)]);
    let in_map_value = g.strukt("InMapValue", vec![prop("lookup", lookup)]);
    let in_option = g.strukt("InOption", vec![prop("maybe", maybe)]);
    let typespace = g.finalize().unwrap();

    let only_clone = trait_set(&[TypespaceTrait::Clone]);
    assert_eq!(built_traits(&typespace, in_vec), only_clone);
    assert_eq!(built_traits(&typespace, in_map_value), only_clone);
    assert_eq!(built_traits(&typespace, in_option), only_clone);
}

fn comparison_and_hash() -> Vec<TypespaceTrait> {
    vec![
        TypespaceTrait::Clone,
        TypespaceTrait::Debug,
        TypespaceTrait::PartialEq,
        TypespaceTrait::PartialOrd,
        TypespaceTrait::Eq,
        TypespaceTrait::Ord,
        TypespaceTrait::Hash,
    ]
}

#[test]
fn float_field_strips_ordering_family_keeps_rest() {
    let mut g = G::new(minimal_with_desired(&comparison_and_hash()));
    let f64_id = g.f64();
    let string = g.string();
    let s = g.strukt("S", vec![prop("weight", f64_id), prop("name", string)]);
    let typespace = g.finalize().unwrap();

    assert_eq!(
        built_traits(&typespace, s),
        trait_set(&[TypespaceTrait::Clone, TypespaceTrait::Debug, TypespaceTrait::PartialEq, TypespaceTrait::PartialOrd])
    );
}

#[test]
fn json_value_field_strips_ordering_family() {
    let mut g = G::new(minimal_with_desired(&comparison_and_hash()));
    let json = g.json();
    let string = g.string();
    let s = g.strukt("S", vec![prop("blob", json), prop("name", string)]);
    let typespace = g.finalize().unwrap();

    assert_eq!(
        built_traits(&typespace, s),
        trait_set(&[
            TypespaceTrait::Clone,
            TypespaceTrait::Debug,
            TypespaceTrait::PartialEq,
            TypespaceTrait::Eq,
            TypespaceTrait::Hash,
        ])
    );
}

#[test]
fn strip_closure_removes_supertrait_dependents() {
    let mut g = G::new(minimal_with_desired(&comparison_and_hash()));
    let weird = g.native(native_decl(
        "weird::Weird",
        &[TypespaceTrait::Clone, TypespaceTrait::Debug, TypespaceTrait::Eq, TypespaceTrait::Ord, TypespaceTrait::Hash],
    ));
    let s = g.strukt("S", vec![prop("odd", weird)]);
    let typespace = g.finalize().unwrap();

    assert_eq!(
        built_traits(&typespace, s),
        trait_set(&[TypespaceTrait::Clone, TypespaceTrait::Debug, TypespaceTrait::Hash])
    );
}

#[test]
fn blocked_leaf_strips_through_two_hops() {
    let mut g = G::new(minimal_with_desired(&[TypespaceTrait::Clone, TypespaceTrait::Eq]));
    let f64_id = g.f64();
    let bottom = g.strukt("Bottom", vec![prop("weight", f64_id)]);
    let middle = g.strukt("Middle", vec![prop("bottom", bottom)]);
    let top = g.strukt("Top", vec![prop("middle", middle)]);
    let typespace = g.finalize().unwrap();

    let only_clone = trait_set(&[TypespaceTrait::Clone]);
    assert_eq!(built_traits(&typespace, bottom), only_clone);
    assert_eq!(built_traits(&typespace, middle), only_clone);
    assert_eq!(built_traits(&typespace, top), only_clone);
}

#[test]
fn desired_survives_cycle_through_box() {
    let mut g = G::new(minimal_with_desired(&[TypespaceTrait::Clone, TypespaceTrait::Eq]));
    let a = g.id("A");
    let b = g.id("B");
    let u32_id = g.u32();
    let string = g.string();
    let box_b = g.boxed(b);
    let box_a = g.boxed(a);
    g.strukt("A", vec![prop("b", box_b), prop("count", u32_id)]);
    g.strukt("B", vec![prop("a", box_a), prop("name", string)]);
    let typespace = g.finalize().unwrap();

    let with_eq = trait_set(&[TypespaceTrait::Clone, TypespaceTrait::Eq, TypespaceTrait::PartialEq]);
    assert_eq!(built_traits(&typespace, a), with_eq);
    assert_eq!(built_traits(&typespace, b), with_eq);
}

#[test]
fn cycle_with_blocker_strips_every_scc_member() {
    let mut g = G::new(minimal_with_desired(&[TypespaceTrait::Clone, TypespaceTrait::Eq]));
    let a = g.id("A");
    let b = g.id("B");
    let f64_id = g.f64();
    let box_b = g.boxed(b);
    let box_a = g.boxed(a);
    g.strukt("A", vec![prop("b", box_b)]);
    g.strukt("B", vec![prop("a", box_a), prop("weight", f64_id)]);
    let typespace = g.finalize().unwrap();

    let only_clone = trait_set(&[TypespaceTrait::Clone]);
    assert_eq!(built_traits(&typespace, a), only_clone);
    assert_eq!(built_traits(&typespace, b), only_clone);
}

#[test]
fn infeasible_desired_is_silent_where_required_conflicts() {
    let mut g = G::new(Settings::minimal().with_required_trait(TypespaceTrait::Eq));
    let f64_id = g.f64();
    g.strukt("S", vec![prop("weight", f64_id)]);
    let conflicts = conflicts_of(g.finalize());
    assert_eq!(conflicts.len(), 1, "conflicts: {conflicts:#?}");

    let mut g = G::new(minimal_with_desired(&[TypespaceTrait::Clone, TypespaceTrait::Eq]));
    let f64_id = g.f64();
    let s = g.strukt("S", vec![prop("weight", f64_id)]);
    let typespace = g
        .finalize()
        .expect("a desired trait that cannot be realized is dropped, not reported");
    assert_eq!(built_traits(&typespace, s), trait_set(&[TypespaceTrait::Clone]));
}

#[test]
fn desired_display_on_struct_dropped_silently() {
    let mut g = G::new(minimal_with_desired(&[
        TypespaceTrait::Clone,
        TypespaceTrait::Display,
        TypespaceTrait::FromStr,
    ]));
    let string = g.string();
    let s = g.strukt("S", vec![prop("name", string)]);
    let typespace = g.finalize().unwrap();

    assert_eq!(built_traits(&typespace, s), trait_set(&[TypespaceTrait::Clone]));
}

#[test]
fn desired_default_on_enum_without_value_dropped() {
    let mut g = G::new(minimal_with_desired(&[TypespaceTrait::Clone, TypespaceTrait::Default]));
    let plain = external(&mut g, "Plain", vec![unit_variant("Red"), unit_variant("Green")]);
    let with_value =
        g.enum_with_default("WithValue", vec![unit_variant("Red"), unit_variant("Green")], json_str("Red"));
    let typespace = g.finalize().unwrap();

    assert_eq!(built_traits(&typespace, plain), trait_set(&[TypespaceTrait::Clone]));
    assert_eq!(
        built_traits(&typespace, with_value),
        trait_set(&[TypespaceTrait::Clone, TypespaceTrait::Default])
    );
}

#[test]
fn desired_default_from_attached_value_needs_nothing_of_fields() {
    let mut g = G::new(minimal_with_desired(&[TypespaceTrait::Clone, TypespaceTrait::Default]));
    let color = color(&mut g);
    let u32_id = g.u32();
    let s = g.strukt_with_default(
        "S",
        vec![prop("count", u32_id), prop("color", color)],
        json_object(vec![("count", json_int(0)), ("color", json_str("Red"))]),
    );
    let typespace = g.finalize().unwrap();

    assert_eq!(built_traits(&typespace, s), trait_set(&[TypespaceTrait::Clone, TypespaceTrait::Default]));
    assert_eq!(built_traits(&typespace, color), trait_set(&[TypespaceTrait::Clone]));
}

#[test]
fn desired_default_from_attached_value_exempts_omitted_optional() {
    let mut g = G::new(minimal_with_desired(&[TypespaceTrait::Clone, TypespaceTrait::Default]));
    let color = color(&mut g);
    let u32_id = g.u32();
    let s = g.strukt_with_default(
        "S",
        vec![prop("count", u32_id), optional_prop("color", color)],
        json_object(vec![("count", json_int(0))]),
    );
    let typespace = g.finalize().unwrap();

    assert_eq!(built_traits(&typespace, s), trait_set(&[TypespaceTrait::Clone, TypespaceTrait::Default]));
    assert_eq!(built_traits(&typespace, color), trait_set(&[TypespaceTrait::Clone]));
}

#[test]
fn attached_struct_default_obligates_the_properties_it_omits() {
    const U32: u64 = 1;
    const MISSING: u64 = 2;
    const OMITTED: u64 = 3;
    const FLATTENED: u64 = 4;
    let ty = Struct::new()
        .name("S")
        .default(json_object(vec![("plain", json_int(0)), ("wire", json_int(0)), ("trap", json_int(0))]))
        .properties(vec![
            StructProperty::new("plain", U32),
            StructProperty::new("renamed", U32).with_json_name(StructPropertySerde::Rename("wire".to_string())),
            StructProperty::new("trap", U32).with_json_name(StructPropertySerde::Rename("trap_wire".to_string())),
            StructProperty::new("missing", MISSING),
            StructProperty::new("optional", OMITTED).with_state(StructPropertyState::Optional),
            StructProperty::new("flattened", FLATTENED).with_json_name(StructPropertySerde::Flatten),
        ])
        .build()
        .unwrap();

    let Feasibility::ManuallyRealizable(obligations) = feasibility(&ty, TypespaceTrait::Default, &Settings::minimal())
    else {
        panic!("expected a hand-written impl");
    };

    let obligated = obligations
        .iter()
        .map(|child| match &child.relation {
            Relation::Field(name) => (name.as_str(), child.id),
            other => panic!("unexpected relation: {other:?}"),
        })
        .collect::<Vec<_>>();
    assert_eq!(obligated, vec![("trap", U32), ("missing", MISSING), ("flattened", FLATTENED)]);
}

#[test]
fn desired_imposes_no_requirement_on_native() {
    let mut g = G::new(minimal_with_desired(&[TypespaceTrait::Clone, TypespaceTrait::Debug, TypespaceTrait::Ord]));
    let plain = g.native(native_decl("plain::Plain", &[TypespaceTrait::Clone, TypespaceTrait::Debug]));
    let s = g.strukt("S", vec![prop("plain", plain)]);
    let typespace = g.finalize().expect("a desired trait never becomes a requirement on a native");

    assert_eq!(built_traits(&typespace, s), trait_set(&[TypespaceTrait::Clone, TypespaceTrait::Debug]));
}

#[test]
fn required_trait_passes_native_unknown() {
    let mut g = G::new(Settings::minimal().with_required_trait(TypespaceTrait::Ord));
    let opaque = g.native(
        native_decl("::opaque::Opaque", &[TypespaceTrait::Clone, TypespaceTrait::Debug]).with_unknown(trait_set(&[
            TypespaceTrait::Ord,
            TypespaceTrait::PartialOrd,
            TypespaceTrait::Eq,
            TypespaceTrait::PartialEq,
        ])),
    );
    let s = g.strukt("S", vec![prop("key", opaque)]);
    let typespace = g.finalize().expect("a native's unknown trait satisfies a requirement for it");

    assert_eq!(
        built_traits(&typespace, s),
        trait_set(&[TypespaceTrait::Ord, TypespaceTrait::PartialOrd, TypespaceTrait::Eq, TypespaceTrait::PartialEq])
    );
}

#[test]
fn required_map_key_passes_native_rest_unknown() {
    let mut g = G::new(Settings::typical());
    let date = g.native(
        native_decl(
            "::chrono::naive::NaiveDate",
            &[TypespaceTrait::Clone, TypespaceTrait::Debug, TypespaceTrait::Serialize, TypespaceTrait::Deserialize],
        )
        .with_rest_unknown(),
    );
    let string = g.string();
    let map = g.map(date, string);
    g.alias("DateMap", map);
    g.finalize().expect("an unknown map key trait is not a conflict");
}

#[test]
fn desired_trait_not_granted_by_native_unknown() {
    let mut g = G::new(minimal_with_desired(&[TypespaceTrait::Clone, TypespaceTrait::Debug, TypespaceTrait::Ord]));
    let opaque =
        g.native(native_decl("::opaque::Opaque", &[TypespaceTrait::Clone, TypespaceTrait::Debug]).with_rest_unknown());
    let s = g.strukt("S", vec![prop("odd", opaque)]);
    let typespace = g.finalize().expect("a desired trait never becomes a requirement on a native");

    assert_eq!(built_traits(&typespace, s), trait_set(&[TypespaceTrait::Clone, TypespaceTrait::Debug]));
}

#[test]
fn required_trait_conflicts_on_native_known_missing() {
    let mut g = G::new(Settings::minimal().with_required_trait(TypespaceTrait::Hash));
    let opaque = g.native(native_decl("::opaque::Opaque", &[TypespaceTrait::Clone, TypespaceTrait::Debug]));
    g.strukt("S", vec![prop("key", opaque)]);
    let conflicts = conflicts_of(g.finalize());

    assert_eq!(conflicts.len(), 1, "conflicts: {conflicts:#?}");
    assert_eq!(conflicts[0].required, TypespaceTrait::Hash);
    assert_eq!(conflicts[0].offender, opaque);
    assert!(matches!(
        &conflicts[0].reason,
        OffenderReason::NativeMissingImpl { owner_name } if owner_name == "::opaque::Opaque"
    ));
}

#[test]
fn required_trait_conflicts_on_native_excepted_from_rest_unknown() {
    let mut g = G::new(Settings::minimal().with_required_trait(TypespaceTrait::Ord));
    let opaque = g.native(
        native_decl("::opaque::Opaque", &[TypespaceTrait::Clone, TypespaceTrait::Debug])
            .with_rest_unknown()
            .with_disposition(TypespaceTrait::Ord, TraitProvision::Never),
    );
    g.strukt("S", vec![prop("key", opaque)]);
    let conflicts = conflicts_of(g.finalize());

    assert_eq!(conflicts.len(), 1, "conflicts: {conflicts:#?}");
    assert_eq!(conflicts[0].required, TypespaceTrait::Ord);
    assert_eq!(conflicts[0].offender, opaque);
    assert!(matches!(
        &conflicts[0].reason,
        OffenderReason::NativeMissingImpl { owner_name } if owner_name == "::opaque::Opaque"
    ));
}

#[test]
fn desired_blocked_by_set_element() {
    let mut g = G::new(minimal_with_desired(&[TypespaceTrait::Clone, TypespaceTrait::Hash]));
    let ordered = g.native(native_decl(
        "ordered::Ordered",
        &[
            TypespaceTrait::Clone,
            TypespaceTrait::Debug,
            TypespaceTrait::Eq,
            TypespaceTrait::PartialEq,
            TypespaceTrait::Ord,
            TypespaceTrait::PartialOrd,
        ],
    ));
    let unique = g.set(ordered);
    let s = g.strukt("S", vec![prop("unique", unique)]);
    let typespace = g.finalize().unwrap();

    assert_eq!(built_traits(&typespace, s), trait_set(&[TypespaceTrait::Clone]));
}

#[test]
fn desired_display_does_not_obligate_newtype_inner() {
    let mut g = G::new(minimal_with_desired(&[TypespaceTrait::Clone, TypespaceTrait::Display]));
    let u32_id = g.u32();
    let inner = g.strukt("Inner", vec![prop("count", u32_id)]);
    let wrapper = g.newtype("Wrapper", inner);
    let typespace = g.finalize().expect("a desired trait never becomes a requirement on a field");

    let only_clone = trait_set(&[TypespaceTrait::Clone]);
    assert_eq!(built_traits(&typespace, wrapper), only_clone);
    assert_eq!(built_traits(&typespace, inner), only_clone);
}

#[test]
fn all_traits_preset_over_float_struct() {
    let mut g = G::new(Settings::maximal());
    let f64_id = g.f64();
    let string = g.string();
    let s = g.strukt("S", vec![prop("weight", f64_id), prop("name", string)]);
    let typespace = g.finalize().unwrap();

    assert_eq!(
        built_traits(&typespace, s),
        trait_set(&[
            TypespaceTrait::Clone,
            TypespaceTrait::Debug,
            TypespaceTrait::Serialize,
            TypespaceTrait::Deserialize,
            TypespaceTrait::JsonSchema,
            TypespaceTrait::PartialEq,
            TypespaceTrait::PartialOrd,
        ])
    );
}

#[test]
fn desired_supertrait_survives_only_when_desired_directly() {
    let mut g = G::new(minimal_with_desired(&[TypespaceTrait::Eq]));
    let f64_id = g.f64();
    let s = g.strukt("S", vec![prop("weight", f64_id)]);
    let typespace = g.finalize().unwrap();
    assert_eq!(built_traits(&typespace, s), TypespaceTraitSet::empty());

    let mut g = G::new(minimal_with_desired(&[TypespaceTrait::Eq, TypespaceTrait::PartialEq]));
    let f64_id = g.f64();
    let s = g.strukt("S", vec![prop("weight", f64_id)]);
    let typespace = g.finalize().unwrap();
    assert_eq!(built_traits(&typespace, s), trait_set(&[TypespaceTrait::PartialEq]));
}

#[test]
fn desired_partial_eq_survives_via_other_desired_trait() {
    let mut g = G::new(minimal_with_desired(&[TypespaceTrait::Eq, TypespaceTrait::PartialOrd]));
    let f64_id = g.f64();
    let string = g.string();
    let s = g.strukt("S", vec![prop("weight", f64_id), prop("name", string)]);
    let typespace = g.finalize().unwrap();

    assert_eq!(built_traits(&typespace, s), trait_set(&[TypespaceTrait::PartialOrd, TypespaceTrait::PartialEq]));
}

#[test]
fn request_survives_the_death_of_a_dependent_request() {
    let mut g = G::new(minimal_with_desired(&[TypespaceTrait::PartialEq, TypespaceTrait::Ord]));
    let f64_id = g.f64();
    let string = g.string();
    let s = g.strukt("S", vec![prop("weight", f64_id), prop("name", string)]);
    let typespace = g.finalize().unwrap();

    assert_eq!(built_traits(&typespace, s), trait_set(&[TypespaceTrait::PartialEq]));
}

#[test]
fn supertrait_borrowed_by_one_request_leaves_with_it() {
    let mut g = G::new(minimal_with_desired(&[TypespaceTrait::Clone, TypespaceTrait::PartialEq, TypespaceTrait::Ord]));
    let weird = g.native(native_decl(
        "::weird::Weird",
        &[TypespaceTrait::Clone, TypespaceTrait::PartialEq, TypespaceTrait::Eq, TypespaceTrait::PartialOrd],
    ));
    let inner = g.strukt("Inner", vec![prop("odd", weird)]);
    let outer = g.strukt("Outer", vec![prop("inner", inner)]);
    let typespace = g.finalize().unwrap();

    let expected = trait_set(&[TypespaceTrait::Clone, TypespaceTrait::PartialEq]);
    assert_eq!(built_traits(&typespace, inner), expected);
    assert_eq!(built_traits(&typespace, outer), expected);
}

#[test]
fn required_trait_survives_desired_strip_in_same_family() {
    let mut g = G::new(
        Settings::minimal()
            .with_required_trait(TypespaceTrait::Eq)
            .with_desired_trait(TypespaceTrait::Ord),
    );
    let partial = g.native(native_decl("partial::PartialOnly", &[TypespaceTrait::Eq, TypespaceTrait::PartialEq]));
    let s = g.strukt("S", vec![prop("stamp", partial)]);
    let typespace = g.finalize().unwrap();

    assert_eq!(built_traits(&typespace, s), trait_set(&[TypespaceTrait::Eq, TypespaceTrait::PartialEq]));
}

#[test]
fn required_partial_eq_supports_desired_eq() {
    let mut g = G::new(
        Settings::minimal()
            .with_required_trait(TypespaceTrait::PartialEq)
            .with_desired_trait(TypespaceTrait::Eq),
    );
    let u32_id = g.u32();
    let s = g.strukt("S", vec![prop("count", u32_id)]);
    let typespace = g.finalize().unwrap();

    assert_eq!(built_traits(&typespace, s), trait_set(&[TypespaceTrait::Eq, TypespaceTrait::PartialEq]));
}

#[test]
fn phase_one_grant_outlives_a_dead_desired_request() {
    let mut g = G::new(
        Settings::minimal()
            .with_required_trait(TypespaceTrait::PartialEq)
            .with_desired_trait(TypespaceTrait::Ord),
    );
    let f64_id = g.f64();
    let s = g.strukt("S", vec![prop("weight", f64_id)]);
    let typespace = g.finalize().unwrap();

    assert_eq!(built_traits(&typespace, s), trait_set(&[TypespaceTrait::PartialEq]));
}

#[test]
fn map_key_grant_is_untouched_by_a_desired_drop() {
    let mut g = G::new(minimal_with_desired(&[TypespaceTrait::Clone, TypespaceTrait::Eq]));
    let string = g.string();
    let f64_id = g.f64();
    let key = g.strukt("Key", vec![prop("name", string)]);
    let lookup = g.map(key, f64_id);
    let s = g.strukt("S", vec![prop("lookup", lookup)]);
    let typespace = g.finalize().unwrap();

    assert_eq!(
        built_traits(&typespace, key),
        trait_set(&[
            TypespaceTrait::Clone,
            TypespaceTrait::Eq,
            TypespaceTrait::PartialEq,
            TypespaceTrait::Ord,
            TypespaceTrait::PartialOrd,
        ])
    );
    assert_eq!(built_traits(&typespace, s), trait_set(&[TypespaceTrait::Clone]));
}

#[test]
fn required_conflict_reported_alongside_desired_traits() {
    let mut g = G::new(
        Settings::minimal()
            .with_required_trait(TypespaceTrait::Display)
            .with_desired_trait(TypespaceTrait::Eq),
    );
    let string = g.string();
    g.strukt("S", vec![prop("name", string)]);
    let Err(Error::TraitConflicts { conflicts }) = g.finalize() else {
        panic!("expected finalization to report trait conflicts");
    };
    assert_eq!(conflicts.len(), 1, "conflicts: {conflicts:#?}");
    assert_eq!(conflicts[0].required, TypespaceTrait::Display);
}

#[test]
fn required_display_through_option_conflicts() {
    let mut g = G::new(Settings::minimal().with_required_trait(TypespaceTrait::Display));
    let string = g.string();
    let nullable = g.option(string);
    g.newtype("Wrapper", nullable);
    let Err(Error::TraitConflicts { conflicts }) = g.finalize() else {
        panic!("expected finalization to report trait conflicts");
    };
    assert_eq!(conflicts.len(), 1, "conflicts: {conflicts:#?}");
    assert_eq!(conflicts[0].required, TypespaceTrait::Display);
    assert_eq!(conflicts[0].offender, nullable);
}

#[test]
fn option_has_no_display_or_from_str() {
    let mut g = G::new(minimal_with_desired(&[TypespaceTrait::Clone, TypespaceTrait::Display, TypespaceTrait::FromStr]));
    let string = g.string();
    let nullable = g.option(string);
    let maybe_name = g.alias("MaybeName", nullable);
    let typespace = g.finalize().unwrap();

    assert_eq!(built_traits(&typespace, maybe_name), trait_set(&[TypespaceTrait::Clone]));
}

#[test]
fn desired_display_dropped_through_vec_inner() {
    let mut g = G::new(minimal_with_desired(&[TypespaceTrait::Clone, TypespaceTrait::Display]));
    let string = g.string();
    let list = g.vec(string);
    let wrapper = g.newtype("Wrapper", list);
    let typespace = g.finalize().unwrap();

    assert_eq!(built_traits(&typespace, wrapper), trait_set(&[TypespaceTrait::Clone]));
}

#[test]
fn box_has_no_display_or_from_str() {
    let mut g = G::new(minimal_with_desired(&[TypespaceTrait::Clone, TypespaceTrait::Display, TypespaceTrait::FromStr]));
    let string = g.string();
    let boxed = g.boxed(string);
    let wrapper = g.newtype("Wrapper", boxed);
    let typespace = g.finalize().unwrap();

    assert_eq!(built_traits(&typespace, wrapper), trait_set(&[TypespaceTrait::Clone]));
}

#[test]
fn desired_display_not_available_through_tuple() {
    let mut g = G::new(minimal_with_desired(&[TypespaceTrait::Clone, TypespaceTrait::Display]));
    let string = g.string();
    let pair = g.tuple(vec![string, string]);
    let wrapper = g.newtype("Wrapper", pair);
    let typespace = g.finalize().unwrap();

    assert_eq!(built_traits(&typespace, wrapper), trait_set(&[TypespaceTrait::Clone]));
}

#[test]
fn desired_display_forwards_to_simple_enum_inner() {
    let mut g = G::new(minimal_with_desired(&[TypespaceTrait::Clone, TypespaceTrait::Display]));
    let color = color(&mut g);
    let wrapper = g.newtype("Wrapper", color);
    let typespace = g.finalize().unwrap();

    let with_display = trait_set(&[TypespaceTrait::Clone, TypespaceTrait::Display]);
    assert_eq!(built_traits(&typespace, wrapper), with_display);
    assert_eq!(built_traits(&typespace, color), with_display);
}

#[test]
fn desired_granted_on_unit_struct() {
    let mut g = G::new(minimal_with_desired(&[TypespaceTrait::Eq, TypespaceTrait::Hash, TypespaceTrait::Display]));
    let marker = g.unit_struct("Marker", json_str("marker"));
    let typespace = g.finalize().unwrap();

    assert_eq!(
        built_traits(&typespace, marker),
        trait_set(&[TypespaceTrait::Eq, TypespaceTrait::PartialEq, TypespaceTrait::Hash])
    );
}

#[test]
fn desired_partial_family_survives_float_in_vec() {
    let mut g = G::new(minimal_with_desired(&[TypespaceTrait::PartialEq, TypespaceTrait::Eq]));
    let f64_id = g.f64();
    let list = g.vec(f64_id);
    let s = g.strukt("S", vec![prop("list", list)]);
    let typespace = g.finalize().unwrap();

    assert_eq!(built_traits(&typespace, s), trait_set(&[TypespaceTrait::PartialEq]));
}

#[test]
fn variant_payload_blocks_desired_trait() {
    let mut g = G::new(minimal_with_desired(&[TypespaceTrait::Clone, TypespaceTrait::PartialEq, TypespaceTrait::Eq]));
    let f64_id = g.f64();
    let reading = external(&mut g, "Reading", vec![unit_variant("Missing"), item_variant("Weight", f64_id)]);
    let typespace = g.finalize().unwrap();

    assert_eq!(built_traits(&typespace, reading), trait_set(&[TypespaceTrait::Clone, TypespaceTrait::PartialEq]));
}

#[test]
fn derived_default_needs_every_field() {
    let mut g = G::new(minimal_with_desired(&[TypespaceTrait::Clone, TypespaceTrait::Default]));
    let color = color(&mut g);
    let s = g.strukt("S", vec![prop("color", color)]);
    let typespace = g.finalize().unwrap();

    let only_clone = trait_set(&[TypespaceTrait::Clone]);
    assert_eq!(built_traits(&typespace, s), only_clone);
    assert_eq!(built_traits(&typespace, color), only_clone);
}

#[test]
fn desired_default_blocked_by_array_element() {
    let mut g = G::new(minimal_with_desired(&[TypespaceTrait::Clone, TypespaceTrait::Default]));
    let color = color(&mut g);
    let swatch = g.array(color, 3);
    let s = g.strukt("S", vec![prop("swatch", swatch)]);
    let typespace = g.finalize().unwrap();

    assert_eq!(built_traits(&typespace, s), trait_set(&[TypespaceTrait::Clone]));
}

#[test]
fn desired_default_survives_vec_of_default_less_element() {
    let mut g = G::new(minimal_with_desired(&[TypespaceTrait::Clone, TypespaceTrait::Default]));
    let color = color(&mut g);
    let swatch = g.vec(color);
    let s = g.strukt("S", vec![default_prop("swatch", swatch)]);
    let typespace = g.finalize().unwrap();

    assert_eq!(built_traits(&typespace, s), trait_set(&[TypespaceTrait::Clone, TypespaceTrait::Default]));
}

#[test]
fn option_provides_default_whatever_it_wraps() {
    let mut g = G::new(minimal_with_desired(&[TypespaceTrait::Clone, TypespaceTrait::Default]));
    let color = color(&mut g);
    let nullable = g.option(color);
    let s = g.strukt("S", vec![default_prop("color", nullable)]);
    let typespace = g.finalize().unwrap();

    assert_eq!(built_traits(&typespace, s), trait_set(&[TypespaceTrait::Clone, TypespaceTrait::Default]));
    assert_eq!(built_traits(&typespace, color), trait_set(&[TypespaceTrait::Clone]));
}

#[test]
fn desired_default_absorbed_by_container_hop() {
    let mut g = G::new(minimal_with_desired(&[TypespaceTrait::Default]));
    let no_default = external(&mut g, "NoDefault", vec![unit_variant("Red"), unit_variant("Green")]);
    let list = g.vec(no_default);
    let maybe = g.option(no_default);
    let s = g.strukt("S", vec![default_prop("list", list), default_prop("maybe", maybe)]);
    let typespace = g.finalize().unwrap();

    assert_eq!(built_traits(&typespace, s), trait_set(&[TypespaceTrait::Default]));
    assert_eq!(built_traits(&typespace, no_default), TypespaceTraitSet::empty());
}

#[test]
fn desired_loss_climbs_nested_containers() {
    let mut g = G::new(minimal_with_desired(&[TypespaceTrait::Clone, TypespaceTrait::Eq]));
    let string = g.string();
    let f64_id = g.f64();
    let nullable = g.option(f64_id);
    let list = g.vec(nullable);
    let deep = g.map(string, list);
    let s = g.strukt("S", vec![prop("deep", deep)]);
    let typespace = g.finalize().unwrap();

    assert_eq!(built_traits(&typespace, s), trait_set(&[TypespaceTrait::Clone]));
}

#[test]
fn desired_evaluates_nested_container_structure() {
    let mut g = G::new(minimal_with_desired(&[TypespaceTrait::Clone, TypespaceTrait::Eq]));
    let string = g.string();
    let u32_id = g.u32();
    let f64_id = g.f64();
    let ints = g.vec(u32_id);
    let maybe_ints = g.option(ints);
    let map_ints = g.map(string, maybe_ints);
    let deep_ints = g.vec(map_ints);
    let floats = g.vec(f64_id);
    let maybe_floats = g.option(floats);
    let map_floats = g.map(string, maybe_floats);
    let deep_floats = g.vec(map_floats);
    let capable = g.strukt("Capable", vec![prop("deep", deep_ints)]);
    let blocked = g.strukt("Blocked", vec![prop("deep", deep_floats)]);
    let typespace = g.finalize().unwrap();

    assert_eq!(
        built_traits(&typespace, capable),
        trait_set(&[TypespaceTrait::Clone, TypespaceTrait::Eq, TypespaceTrait::PartialEq])
    );
    assert_eq!(built_traits(&typespace, blocked), trait_set(&[TypespaceTrait::Clone]));
}

#[test]
fn desired_never_field_keeps_derived_std_traits() {
    let mut g = G::new(minimal_with_desired(&[TypespaceTrait::Eq, TypespaceTrait::Hash, TypespaceTrait::Default]));
    let never = g.never();
    let s = g.strukt("S", vec![optional_prop("gone", never)]);
    let typespace = g.finalize().unwrap();

    assert_eq!(
        built_traits(&typespace, s),
        trait_set(&[TypespaceTrait::Eq, TypespaceTrait::PartialEq, TypespaceTrait::Hash, TypespaceTrait::Default])
    );
}

#[test]
fn desired_display_on_untagged_item_variants() {
    let mut g = G::new(minimal_with_desired(&[TypespaceTrait::Clone, TypespaceTrait::Display]));
    let string = g.string();
    let u32_id = g.u32();
    let u = g.enumeration(
        "U",
        EnumTagType::Untagged,
        vec![item_variant("Text", string), item_variant("Count", u32_id)],
    );
    let typespace = g.finalize().unwrap();

    assert_eq!(built_traits(&typespace, u), trait_set(&[TypespaceTrait::Clone, TypespaceTrait::Display]));
}

#[test]
fn untagged_enum_display_needs_single_payload_variants() {
    let mut g = G::new(minimal_with_desired(&[TypespaceTrait::Clone, TypespaceTrait::Display]));
    let string = g.string();
    let e = g.enumeration(
        "E",
        EnumTagType::Untagged,
        vec![
            item_variant("One", string),
            EnumVariant::new("Pair", VariantDetails::Tuple(vec![string, string])),
        ],
    );
    let typespace = g.finalize().unwrap();

    assert_eq!(built_traits(&typespace, e), trait_set(&[TypespaceTrait::Clone]));
}

#[test]
fn desired_display_rejected_on_untagged_struct_variant() {
    let mut g = G::new(minimal_with_desired(&[TypespaceTrait::Clone, TypespaceTrait::Display]));
    let string = g.string();
    let u = g.enumeration(
        "U",
        EnumTagType::Untagged,
        vec![
            item_variant("Text", string),
            EnumVariant::new("Pair", VariantDetails::Struct(vec![prop("left", string), prop("right", string)])),
        ],
    );
    let typespace = g.finalize().unwrap();

    assert_eq!(built_traits(&typespace, u), trait_set(&[TypespaceTrait::Clone]));
}

#[test]
fn self_referential_type_keeps_desired_trait() {
    let mut g = G::new(minimal_with_desired(&[TypespaceTrait::Clone, TypespaceTrait::Eq]));
    let node = g.id("Node");
    let next = g.boxed(node);
    let u32_id = g.u32();
    g.strukt("Node", vec![prop("next", next), prop("count", u32_id)]);
    let typespace = g.finalize().unwrap();

    assert_eq!(
        built_traits(&typespace, node),
        trait_set(&[TypespaceTrait::Clone, TypespaceTrait::Eq, TypespaceTrait::PartialEq])
    );
}

#[test]
fn desired_survives_cycle_through_vec() {
    let mut g = G::new(minimal_with_desired(&[TypespaceTrait::Clone, TypespaceTrait::Eq]));
    let node = g.id("Node");
    let kids = g.vec(node);
    let string = g.string();
    g.strukt("Node", vec![prop("kids", kids), prop("name", string)]);
    let typespace = g.finalize().unwrap();

    assert_eq!(
        built_traits(&typespace, node),
        trait_set(&[TypespaceTrait::Clone, TypespaceTrait::Eq, TypespaceTrait::PartialEq])
    );
}

#[test]
fn desired_stripped_in_cycle_through_vec() {
    let mut g = G::new(minimal_with_desired(&[TypespaceTrait::Clone, TypespaceTrait::Eq]));
    let node = g.id("Node");
    let kids = g.vec(node);
    let f64_id = g.f64();
    g.strukt("Node", vec![prop("kids", kids), prop("weight", f64_id)]);
    let typespace = g.finalize().unwrap();

    assert_eq!(built_traits(&typespace, node), trait_set(&[TypespaceTrait::Clone]));
}

#[test]
fn cycle_entered_from_the_blocking_member_strips_both() {
    let mut g = G::new(minimal_with_desired(&[TypespaceTrait::Clone, TypespaceTrait::Eq]));
    let a = g.id("A");
    let b = g.id("B");
    let f64_id = g.f64();
    let box_b = g.boxed(b);
    let box_a = g.boxed(a);
    g.strukt("A", vec![prop("b", box_b), prop("weight", f64_id)]);
    g.strukt("B", vec![prop("a", box_a)]);
    let typespace = g.finalize().unwrap();

    let only_clone = trait_set(&[TypespaceTrait::Clone]);
    assert_eq!(built_traits(&typespace, a), only_clone);
    assert_eq!(built_traits(&typespace, b), only_clone);
}

#[test]
fn three_member_cycle_strips_every_member() {
    let mut g = G::new(minimal_with_desired(&[TypespaceTrait::Clone, TypespaceTrait::Eq]));
    let a = g.id("A");
    let b = g.id("B");
    let c = g.id("C");
    let f64_id = g.f64();
    let box_b = g.boxed(b);
    let box_c = g.boxed(c);
    let box_a = g.boxed(a);
    g.strukt("A", vec![prop("b", box_b)]);
    g.strukt("B", vec![prop("c", box_c)]);
    g.strukt("C", vec![prop("a", box_a), prop("weight", f64_id)]);
    let typespace = g.finalize().unwrap();

    let only_clone = trait_set(&[TypespaceTrait::Clone]);
    for id in [a, b, c] {
        assert_eq!(built_traits(&typespace, id), only_clone, "{id}");
    }
}

#[test]
fn type_above_a_blocked_cycle_loses_the_trait() {
    let mut g = G::new(minimal_with_desired(&[TypespaceTrait::Clone, TypespaceTrait::Eq]));
    let cycle1 = g.id("Cycle1");
    let cycle2 = g.id("Cycle2");
    let f64_id = g.f64();
    let box2 = g.boxed(cycle2);
    let box1 = g.boxed(cycle1);
    let above = g.strukt("Above", vec![prop("member", cycle1)]);
    g.strukt("Cycle1", vec![prop("other", box2)]);
    g.strukt("Cycle2", vec![prop("other", box1), prop("weight", f64_id)]);
    let typespace = g.finalize().unwrap();

    let only_clone = trait_set(&[TypespaceTrait::Clone]);
    for id in [above, cycle1, cycle2] {
        assert_eq!(built_traits(&typespace, id), only_clone, "{id}");
    }
}

#[test]
fn type_above_a_clean_cycle_keeps_the_trait() {
    let mut g = G::new(minimal_with_desired(&[TypespaceTrait::Clone, TypespaceTrait::Eq]));
    let clean1 = g.id("Clean1");
    let clean2 = g.id("Clean2");
    let u32_id = g.u32();
    let box2 = g.boxed(clean2);
    let box1 = g.boxed(clean1);
    g.strukt("Clean1", vec![prop("other", box2), prop("count", u32_id)]);
    g.strukt("Clean2", vec![prop("other", box1)]);
    let holder = g.strukt("Holder", vec![prop("member", clean1)]);
    let typespace = g.finalize().unwrap();

    let with_eq = trait_set(&[TypespaceTrait::Clone, TypespaceTrait::Eq, TypespaceTrait::PartialEq]);
    for id in [clean1, clean2, holder] {
        assert_eq!(built_traits(&typespace, id), with_eq, "{id}");
    }
}

#[test]
fn alias_chain_forwards_desired_trait() {
    let mut g = G::new(minimal_with_desired(&[TypespaceTrait::Clone, TypespaceTrait::Eq]));
    let f64_id = g.f64();
    let blocked = g.strukt("Blocked", vec![prop("weight", f64_id)]);
    let near = g.alias("Near", blocked);
    let far = g.alias("Far", near);
    let typespace = g.finalize().unwrap();

    let only_clone = trait_set(&[TypespaceTrait::Clone]);
    for id in [blocked, near, far] {
        assert_eq!(built_traits(&typespace, id), only_clone, "{id}");
    }
}

#[test]
fn desired_removal_crosses_a_deep_chain() {
    const DEPTH: u64 = 32;
    const LEAF: u64 = 1000;
    let mut builder =
        TypespaceBuilder::new(minimal_with_desired(&[TypespaceTrait::Clone, TypespaceTrait::Eq]));
    builder.insert(LEAF, Type::Float("f64".to_string())).unwrap();
    for level in 0..DEPTH {
        let inner = if level + 1 == DEPTH { LEAF } else { level + 1 };
        let wrapper = NewtypeStruct::new(inner).name(&format!("L{level}")).build().unwrap();
        builder.insert(level, wrapper).unwrap();
    }

    let typespace = builder.finalize(no_cycles).unwrap();

    let only_clone = trait_set(&[TypespaceTrait::Clone]);
    for level in 0..DEPTH {
        assert_eq!(built_traits(&typespace, level), only_clone, "level {level}");
    }
}

#[test]
fn deep_containment_chain_resolves() {
    const DEPTH: u64 = 2000;
    const FLOAT: u64 = 100_000;
    let mut builder =
        TypespaceBuilder::new(minimal_with_desired(&[TypespaceTrait::Clone, TypespaceTrait::Eq]));
    for level in 0..DEPTH {
        let next = if level + 1 == DEPTH { FLOAT } else { level + 1 };
        builder
            .insert(
                level,
                Struct::new()
                    .name(&format!("Level{level}"))
                    .properties(vec![StructProperty::new("next", next)])
                    .build()
                    .unwrap(),
            )
            .unwrap();
    }
    builder.insert(FLOAT, Type::Float("f64".to_string())).unwrap();

    let typespace = builder.finalize(no_cycles).unwrap();

    let only_clone = trait_set(&[TypespaceTrait::Clone]);
    assert_eq!(built_traits(&typespace, 0), only_clone);
    assert_eq!(built_traits(&typespace, DEPTH - 1), only_clone);
}

#[test]
fn probe_diamond_and_duplicate_edges() {
    let mut g = G::new(minimal_with_desired(&[TypespaceTrait::Clone, TypespaceTrait::Eq]));
    let f64_id = g.f64();
    let bottom = g.strukt("Bottom", vec![prop("w", f64_id)]);
    let left = g.strukt("Left", vec![prop("b", bottom), prop("b2", bottom)]);
    let right = g.strukt("Right", vec![prop("b", bottom)]);
    let top = g.strukt("Top", vec![prop("l", left), prop("r", right)]);
    let ts = g.finalize().unwrap();
    let only_clone = trait_set(&[TypespaceTrait::Clone]);
    for id in [bottom, left, right, top] {
        assert_eq!(built_traits(&ts, id), only_clone, "{id}");
    }
}

#[test]
fn probe_named_firebreak_stops_loss() {
    let mut g = G::new(minimal_with_desired(&[TypespaceTrait::Default]));
    let no_def = external(&mut g, "NoDef", vec![unit_variant("A"), unit_variant("B")]);
    let middle = g.strukt_with_default("Middle", vec![prop("x", no_def)], json_object(vec![("x", json_str("A"))]));
    let top = g.strukt("Top", vec![default_prop("m", middle)]);
    let ts = g.finalize().unwrap();
    assert_eq!(built_traits(&ts, no_def), TypespaceTraitSet::empty());
    assert_eq!(built_traits(&ts, middle), trait_set(&[TypespaceTrait::Default]));
    assert_eq!(
        built_traits(&ts, top),
        trait_set(&[TypespaceTrait::Default]),
        "Top should keep Default: Middle absorbs the loss"
    );
}

#[test]
fn probe_chained_manual_obligations() {
    let mut g = G::new(minimal_with_desired(&[TypespaceTrait::Clone, TypespaceTrait::Display]));
    let string = g.string();
    let inner = g.strukt("Inner", vec![prop("s", string)]);
    let wrapper = g.newtype("Wrapper", inner);
    let u = g.enumeration(
        "U",
        EnumTagType::Untagged,
        vec![item_variant("W", wrapper), item_variant("T", string)],
    );
    let ts = g.finalize().unwrap();
    let only_clone = trait_set(&[TypespaceTrait::Clone]);
    for id in [inner, wrapper, u] {
        assert_eq!(built_traits(&ts, id), only_clone, "{id}");
    }
}

#[test]
fn probe_chained_manual_obligations_capable() {
    let mut g = G::new(minimal_with_desired(&[TypespaceTrait::Clone, TypespaceTrait::Display]));
    let string = g.string();
    let u32_id = g.u32();
    let wrapper = g.newtype("Wrapper", string);
    let u = g.enumeration(
        "U",
        EnumTagType::Untagged,
        vec![item_variant("W", wrapper), item_variant("T", u32_id)],
    );
    let ts = g.finalize().unwrap();
    let with_display = trait_set(&[TypespaceTrait::Clone, TypespaceTrait::Display]);
    for id in [wrapper, u] {
        assert_eq!(built_traits(&ts, id), with_display, "{id}");
    }
}

#[test]
fn probe_cycle_through_newtype() {
    let mut g = G::new(minimal_with_desired(&[TypespaceTrait::Clone, TypespaceTrait::Eq]));
    let a = g.id("A");
    let b = g.id("B");
    let box_b = g.boxed(b);
    g.newtype("A", box_b);
    g.newtype("B", a);
    let ts = g.finalize().unwrap();
    let with_eq = trait_set(&[TypespaceTrait::Clone, TypespaceTrait::Eq, TypespaceTrait::PartialEq]);
    for id in [a, b] {
        assert_eq!(built_traits(&ts, id), with_eq, "{id}");
    }
}

#[test]
fn probe_untagged_self_cycle_display() {
    let mut g = G::new(minimal_with_desired(&[TypespaceTrait::Clone, TypespaceTrait::Display]));
    let u = g.id("U");
    let boxed = g.boxed(u);
    let string = g.string();
    g.enumeration(
        "U",
        EnumTagType::Untagged,
        vec![item_variant("Nested", boxed), item_variant("Leaf", string)],
    );
    let ts = g.finalize().unwrap();
    assert_eq!(built_traits(&ts, u), trait_set(&[TypespaceTrait::Clone]));
}

#[test]
fn probe_grant_supports_desired_elsewhere() {
    let mut g = G::new(minimal_with_desired(&[TypespaceTrait::Clone, TypespaceTrait::Eq]));
    let string = g.string();
    let f64_id = g.f64();
    let key = g.strukt("Key", vec![prop("name", string)]);
    let lookup = g.map(key, f64_id);
    let holds_map = g.strukt("HoldsMap", vec![prop("lookup", lookup)]);
    let holds_key = g.strukt("HoldsKey", vec![prop("k", key)]);
    let ts = g.finalize().unwrap();
    assert_eq!(
        built_traits(&ts, holds_key),
        trait_set(&[TypespaceTrait::Clone, TypespaceTrait::Eq, TypespaceTrait::PartialEq])
    );
    assert_eq!(built_traits(&ts, holds_map), trait_set(&[TypespaceTrait::Clone]));
}

#[test]
fn probe_tuple_struct_rest_blocks() {
    let mut g = G::new(minimal_with_desired(&[TypespaceTrait::Clone, TypespaceTrait::Eq]));
    let f64_id = g.f64();
    let floats = g.vec(f64_id);
    let string = g.string();
    let t = g.tuple_struct("T", vec![string], Some(floats));
    let ts = g.finalize().unwrap();
    assert_eq!(built_traits(&ts, t), trait_set(&[TypespaceTrait::Clone]));
}

#[test]
fn probe_alias_to_container_default() {
    let mut g = G::new(minimal_with_desired(&[TypespaceTrait::Clone, TypespaceTrait::Default]));
    let no_def = external(&mut g, "NoDef", vec![unit_variant("A"), unit_variant("B")]);
    let list = g.vec(no_def);
    let l = g.alias("L", list);
    let ts = g.finalize().unwrap();
    assert_eq!(built_traits(&ts, l), trait_set(&[TypespaceTrait::Clone, TypespaceTrait::Default]));
}

#[test]
fn test_xxx() {
    let mut g = G::new(minimal_with_desired(&[TypespaceTrait::Clone, TypespaceTrait::Default]));
    let string = g.string();
    let u32_id = g.u32();
    let foo = g.strukt(
        "Foo",
        vec![
            optional_prop("a", string),
            prop("b", u32_id).with_state(StructPropertyState::DefaultValue(json_int(12))),
        ],
    );
    let ts = g.finalize().unwrap();
    assert_eq!(built_traits(&ts, foo), trait_set(&[TypespaceTrait::Clone, TypespaceTrait::Default]));
}

#[test]
fn irrefutable_payload_refuses_from_str() {
    let mut g = G::new(Settings::minimal().with_required_trait(TypespaceTrait::FromStr));
    let string = g.string();
    let count = g.u32();
    let u = g.enumeration("U", EnumTagType::Untagged, vec![item_variant("Text", string), item_variant("Count", count)]);
    let conflicts = conflicts_of(g.finalize());
    assert_eq!(conflicts.len(), 1);
    assert_eq!(conflicts[0].required, TypespaceTrait::FromStr);
    assert_eq!(conflicts[0].offender, u);
    assert!(matches!(conflicts[0].origin, RequirementOrigin::GlobalSettings));
    match &conflicts[0].reason {
        OffenderReason::IrrefutableVariantPayload { variant } => assert_eq!(variant, "Text"),
        other => panic!("unexpected reason: {other:?}"),
    }
}

#[test]
fn irrefutable_payload_through_alias_and_newtype_refuses_from_str() {
    let mut g = G::new(Settings::minimal().with_required_trait(TypespaceTrait::FromStr));
    let string = g.string();
    let wrapped = g.newtype("Wrapped", string);
    let named = g.alias("Named", wrapped);
    let count = g.u32();
    g.enumeration("U", EnumTagType::Untagged, vec![item_variant("Count", count), item_variant("Name", named), item_variant("Other", count)]);
    let conflicts = conflicts_of(g.finalize());
    assert_eq!(conflicts.len(), 1);
    match &conflicts[0].reason {
        OffenderReason::IrrefutableVariantPayload { variant } => assert_eq!(variant, "Name"),
        other => panic!("unexpected reason: {other:?}"),
    }
}

#[test]
fn irrefutable_payload_in_last_variant_keeps_from_str() {
    let mut g = G::new(Settings::minimal().with_required_trait(TypespaceTrait::FromStr));
    let string = g.string();
    let count = g.u32();
    let u = g.enumeration("U", EnumTagType::Untagged, vec![item_variant("Count", count), item_variant("Text", string)]);
    let typespace = g.finalize().unwrap();
    assert!(built_traits(&typespace, u).contains(&TypespaceTrait::FromStr));
}

#[test]
fn feasibility_distinguishes_derived_forwarded_and_manual() {
    let settings = Settings::minimal();
    let newtype = NewtypeStruct::new(7).name("N").build().unwrap();
    match feasibility(&newtype, TypespaceTrait::Display, &settings) {
        Feasibility::ManuallyRealizable(v) => {
            assert_eq!(v.len(), 1);
            assert_eq!(v[0].id, 7);
            assert!(matches!(v[0].relation, Relation::Inner));
        },
        _ => panic!("a newtype's Display is hand-written"),
    }
    assert!(matches!(feasibility(&newtype, TypespaceTrait::Clone, &settings), Feasibility::Derivable));
    let alias = TypeAlias::new(7).name("A").build().unwrap();
    assert!(matches!(feasibility(&alias, TypespaceTrait::Display, &settings), Feasibility::Forward));
    let s = Struct::new().name("S").properties(vec![StructProperty::new("a", 7)]).build().unwrap();
    assert!(matches!(feasibility(&s, TypespaceTrait::Display, &settings), Feasibility::Impossible));
}

#[test]
fn conflict_message_names_offender_path_and_origin() {
    let mut g = G::new(Settings::minimal().with_required_trait(TypespaceTrait::Display));
    let string = g.string();
    let s = g.strukt("S", vec![prop("s", string)]);
    let conflicts = conflicts_of(g.finalize());
    assert_eq!(conflicts.len(), 1);
    assert_eq!(
        conflicts[0].message(),
        format!(
            "the generated struct with id `{s}` cannot implement the required trait `Display`\n    required because global settings require `Display` of all types"
        )
    );
    assert_eq!(typespace::message::format_conflicts(&conflicts), conflicts[0].message());
}

#[test]
fn container_conflict_names_configured_path_through_newtype() {
    let mut g = G::new(Settings::minimal().with_required_trait(TypespaceTrait::Display));
    let string = g.string();
    let v = g.vec(string);
    let w = g.newtype("Wrapper", v);
    let conflicts = conflicts_of(g.finalize());
    assert_eq!(conflicts.len(), 1);
    assert_eq!(conflicts[0].offender, v);
    assert_eq!(conflicts[0].path.len(), 1);
    assert_eq!(conflicts[0].path[0].type_id, w);
    assert!(matches!(conflicts[0].path[0].relation, Relation::Inner));
    match &conflicts[0].reason {
        OffenderReason::ContainerMissingImpl { owner_name } => assert_eq!(owner_name, "::std::vec::Vec"),
        other => panic!("unexpected reason: {other:?}"),
    }
    assert_eq!(
        conflicts[0].message(),
        format!(
            "the configured container `::std::vec::Vec` (id `{v}`) does not provide the required trait `Display`\n    required because `{w}` passes the requirement to its inner type\n    required because global settings require `Display` of all types"
        )
    );
}
