use vstd::prelude::*;

use crate::build::Type;

use crate::build::common::{ident_problem, ident_result, validate_ident, TypeCommon};
use crate::error::{Error, NameAxis};
use crate::json::JsonValue;

verus! {

/// A struct with named fields.
///
/// A `Struct` is its own builder: [`Struct::new`] starts one under
/// construction, the fluent methods fill it in, and [`Struct::build`]
/// validates it and produces the finished `Type::Struct` value.
#[derive(Debug, Clone)]
pub struct Struct {
    pub common: TypeCommon,
    pub properties: Vec<StructProperty>,
    pub deny_unknown_fields: bool,
}

/// One named field of a [`Struct`] (or of a struct-shaped enum variant).
#[derive(Debug, Clone, PartialEq, Eq)]
#[non_exhaustive]
pub struct StructProperty {
    pub rust_name: String,
    pub json_name: StructPropertySerde,
    pub state: StructPropertyState,
    pub description: Option<String>,
    pub type_id: u64,
}

/// The serde treatment of a property's name.
#[derive(Debug, Clone, PartialEq, Eq)]
pub enum StructPropertySerde {
    Unchanged,
    Rename(String),
    Flatten,
}

/// The volitionality of a struct property. Only `Optional` translates
/// into an `Option<T>` type; the others are required in Rust. Conversely,
/// only `Required` must be present during deserialization.
#[derive(Debug, Clone, PartialEq, Eq)]
pub enum StructPropertyState {
    /// The field must be present.
    Required,
    /// The field may be omitted.
    Optional,
    /// The field may be omitted; if it is, its value comes from the type's
    /// intrinsic default.
    Default,
    /// The field may be omitted; if it is, its value comes from the given
    /// JSON value.
    DefaultValue(JsonValue),
}

/// The name a property serializes under: the rename when there is one,
/// the Rust name otherwise, and none for a flattened property.
pub open spec fn spec_wire_name(p: StructProperty) -> Option<Seq<char>> {
    match p.json_name {
        StructPropertySerde::Unchanged => Some(p.rust_name@),
        StructPropertySerde::Rename(r) => Some(r@),
        StructPropertySerde::Flatten => None,
    }
}

impl StructProperty {
    /// A required property named `rust_name` whose type is `type_id`,
    /// with no serde renaming and no description.
    pub fn new(rust_name: &str, type_id: u64) -> (p: Self)
        ensures
            p.rust_name@ == rust_name@,
            p.json_name == StructPropertySerde::Unchanged,
            p.state == StructPropertyState::Required,
            p.description is None,
            p.type_id == type_id,
    {
        StructProperty {
            rust_name: rust_name.to_owned(),
            json_name: StructPropertySerde::Unchanged,
            state: StructPropertyState::Required,
            description: None,
            type_id,
        }
    }

    /// Set the property's volitionality.
    pub fn with_state(self, state: StructPropertyState) -> (p: Self)
        ensures
            p == (StructProperty { state, ..self }),
    {
        StructProperty { state, ..self }
    }

    /// Set the serde treatment of the property's name.
    pub fn with_json_name(self, json_name: StructPropertySerde) -> (p: Self)
        ensures
            p == (StructProperty { json_name, ..self }),
    {
        StructProperty { json_name, ..self }
    }

    /// Set the description (doc comment source).
    pub fn with_description(self, description: &str) -> (p: Self)
        ensures
            p.description is Some && p.description->0@ == description@,
            p.rust_name == self.rust_name,
            p.json_name == self.json_name,
            p.state == self.state,
            p.type_id == self.type_id,
    {
        StructProperty { description: Some(description.to_owned()), ..self }
    }

    /// The Rust field name.
    pub fn rust_name(&self) -> (r: &str)
        ensures
            r@ == self.rust_name@,
    {
        self.rust_name.as_str()
    }

    /// The serde treatment of the property's name.
    pub fn json_name(&self) -> (r: &StructPropertySerde)
        ensures
            *r == self.json_name,
    {
        &self.json_name
    }

    /// The name the property serializes under.
    pub fn wire_name(&self) -> (r: Option<&str>)
        ensures
            match spec_wire_name(*self) {
                None => r is None,
                Some(w) => r is Some && r->0@ == w,
            },
    {
        match &self.json_name {
            StructPropertySerde::Unchanged => Some(self.rust_name.as_str()),
            StructPropertySerde::Rename(rename) => Some(rename.as_str()),
            StructPropertySerde::Flatten => None,
        }
    }

    /// The property's volitionality.
    pub fn state(&self) -> (r: &StructPropertyState)
        ensures
            *r == self.state,
    {
        &self.state
    }

    /// The description (doc comment source), if any.
    pub fn description(&self) -> (r: Option<&str>)
        ensures
            r is Some <==> self.description is Some,
            r matches Some(d) ==> d@ == self.description->0@,
    {
        match &self.description {
            Some(d) => Some(d.as_str()),
            None => None,
        }
    }

    /// The ID of the property's type.
    pub fn type_id(&self) -> (r: u64)
        ensures
            r == self.type_id,
    {
        self.type_id
    }
}

impl StructPropertyState {
    /// Whether the state is `Optional`.
    pub fn is_optional(&self) -> (b: bool)
        ensures
            b == (*self is Optional),
    {
        matches!(self, StructPropertyState::Optional)
    }
}

/// The problem with property `i` of `props`, given the properties before
/// it: an invalid Rust name, a Rust name already used, or a wire name
/// already used. Flattened properties have no wire name and are exempt
/// from the wire axis.
pub enum PropertyProblem {
    Ident(&'static str),
    DuplicateRust,
    DuplicateWire,
}

pub open spec fn property_problem(props: Seq<StructProperty>, i: int) -> Option<PropertyProblem> {
    let p = props[i];
    match ident_problem(p.rust_name@) {
        Some(message) => Some(PropertyProblem::Ident(message)),
        None => if exists|j: int| 0 <= j < i && (#[trigger] props[j]).rust_name@ == p.rust_name@ {
            Some(PropertyProblem::DuplicateRust)
        } else if spec_wire_name(p) is Some && exists|j: int|
            0 <= j < i && spec_wire_name(#[trigger] props[j]) == spec_wire_name(p) {
            Some(PropertyProblem::DuplicateWire)
        } else {
            None
        },
    }
}

/// `e` is the error that reports `problem` for property `p` of the type
/// named `owner_name`.
pub open spec fn property_error(
    e: Error,
    kind: &'static str,
    owner_name: Seq<char>,
    p: StructProperty,
    problem: PropertyProblem,
) -> bool {
    match problem {
        PropertyProblem::Ident(message) => e matches Error::InvalidName { kind: k, name: n, message: m }
            && k == kind && n@ == p.rust_name@ && m == message,
        PropertyProblem::DuplicateRust => e matches Error::DuplicateItemName {
            kind: k,
            owner_name: t,
            name: n,
            axis: NameAxis::Rust,
        } && k == kind && t@ == owner_name && n@ == p.rust_name@,
        PropertyProblem::DuplicateWire => e matches Error::DuplicateItemName {
            kind: k,
            owner_name: t,
            name: n,
            axis: NameAxis::Wire,
        } && k == kind && t@ == owner_name && spec_wire_name(p) == Some(n@),
    }
}

/// `r` is the outcome of checking the names of `props` in order: the
/// first property with a problem reports it.
pub open spec fn properties_result(
    r: Result<(), Error>,
    owner_name: Seq<char>,
    props: Seq<StructProperty>,
) -> bool {
    match r {
        Ok(()) => forall|i: int| 0 <= i < props.len() ==> property_problem(props, i) is None,
        Err(e) => exists|i: int|
            0 <= i < props.len() && (forall|j: int| 0 <= j < i ==> property_problem(props, j) is None)
                && #[trigger] property_problem(props, i) is Some && property_error(
                e,
                "property",
                owner_name,
                props[i],
                property_problem(props, i)->0,
            ),
    }
}

/// The index of the first flattened property of `props` from index `k`
/// on.
pub open spec fn first_flattened(props: Seq<StructProperty>, k: int) -> Option<int>
    decreases props.len() - k,
{
    if k < 0 || k >= props.len() {
        None
    } else if props[k].json_name is Flatten {
        Some(k)
    } else {
        first_flattened(props, k + 1)
    }
}

/// The index of the first flattened property of `props`.
fn first_flattened_index(props: &Vec<StructProperty>) -> (r: Option<usize>)
    ensures
        r matches Some(i) ==> i < props@.len() && first_flattened(props@, 0) == Some(i as int),
        r is None ==> first_flattened(props@, 0) is None,
{
    let mut i: usize = 0;
    while i < props.len()
        invariant
            i <= props@.len(),
            first_flattened(props@, 0) == first_flattened(props@, i as int),
        decreases props@.len() - i,
    {
        match props[i].json_name {
            StructPropertySerde::Flatten => {
                return Some(i);
            },
            _ => {},
        }
        i = i + 1;
    }
    None
}

/// Check property names for validity and uniqueness: every Rust name must
/// be a valid identifier, and names must be unique on both the Rust and
/// the wire axis.
pub fn check_properties(owner_name: &str, properties: &Vec<StructProperty>) -> (r: Result<(), Error>)
    ensures
        properties_result(r, owner_name@, properties@),
{
    let mut i: usize = 0;
    while i < properties.len()
        invariant
            i <= properties@.len(),
            forall|j: int| 0 <= j < i ==> property_problem(properties@, j) is None,
        decreases properties@.len() - i,
    {
        let property = &properties[i];
        let checked = validate_ident("property", property.rust_name.as_str());
        if let Err(e) = checked {
            proof {
                assert(property_problem(properties@, i as int) is Some);
            }
            return Err(e);
        }
        let mut j: usize = 0;
        while j < i
            invariant
                j <= i < properties@.len(),
                forall|k: int| 0 <= k < i ==> property_problem(properties@, k) is None,
                property == properties@[i as int],
                ident_problem(property.rust_name@) is None,
                forall|k: int| 0 <= k < j ==> (#[trigger] properties@[k]).rust_name@ != property.rust_name@,
            decreases i - j,
        {
            if properties[j].rust_name == property.rust_name {
                proof {
                    assert(property_problem(properties@, i as int) == Some(PropertyProblem::DuplicateRust));
                }
                return Err(
                    Error::DuplicateItemName {
                        kind: "property",
                        owner_name: owner_name.to_owned(),
                        name: property.rust_name.clone(),
                        axis: NameAxis::Rust,
                    },
                );
            }
            j = j + 1;
        }
        if let Some(wire) = property.wire_name() {
            let mut j: usize = 0;
            while j < i
                invariant
                    j <= i < properties@.len(),
                forall|k: int| 0 <= k < i ==> property_problem(properties@, k) is None,
                    property == properties@[i as int],
                    ident_problem(property.rust_name@) is None,
                    forall|k: int| 0 <= k < i ==> (#[trigger] properties@[k]).rust_name@ != property.rust_name@,
                    spec_wire_name(*property) == Some(wire@),
                    forall|k: int| 0 <= k < j ==> spec_wire_name(#[trigger] properties@[k]) != Some(wire@),
                decreases i - j,
            {
                match properties[j].wire_name() {
                    Some(other) => {
                        if crate::json::str_equal(other, wire) {
                            proof {
                                assert(property_problem(properties@, i as int) == Some(PropertyProblem::DuplicateWire));
                            }
                            return Err(
                                Error::DuplicateItemName {
                                    kind: "property",
                                    owner_name: owner_name.to_owned(),
                                    name: wire.to_owned(),
                                    axis: NameAxis::Wire,
                                },
                            );
                        }
                    },
                    None => {},
                }
                j = j + 1;
            }
        }
        i = i + 1;
    }
    Ok(())
}

impl Struct {
    /// Start a struct under construction.
    pub fn new() -> (s: Self)
        ensures
            s.common.is_blank(),
            s.properties@.len() == 0,
            !s.deny_unknown_fields,
    {
        Struct { common: TypeCommon::new(), properties: Vec::new(), deny_unknown_fields: false }
    }

    /// Append properties.
    pub fn properties(self, properties: Vec<StructProperty>) -> (s: Self)
        ensures
            s.properties@ == self.properties@ + properties@,
            s.common == self.common,
            s.deny_unknown_fields == self.deny_unknown_fields,
    {
        let Struct { common, properties: mut props, deny_unknown_fields } = self;
        let mut more = properties;
        props.append(&mut more);
        Struct { common, properties: props, deny_unknown_fields }
    }

    /// Make deserialization reject unknown fields.
    pub fn deny_unknown_fields(self) -> (s: Self)
        ensures
            s.deny_unknown_fields,
            s.common == self.common,
            s.properties == self.properties,
    {
        Struct { deny_unknown_fields: true, ..self }
    }

    /// Whether `r` is what the checks `build()` applies give.
    pub open spec fn checked(self, r: Result<(), Error>) -> bool {
        match self.common.name {
            None => r matches Err(Error::MissingTypeName { kind: k }) && k == "struct",
            Some(n) => if ident_problem(n@) is Some {
                ident_result(r, "struct", n@)
            } else if !properties_result(Ok(()), n@, self.properties@) {
                properties_result(r, n@, self.properties@)
            } else if self.deny_unknown_fields && first_flattened(self.properties@, 0) is Some {
                r matches Err(Error::FlattenWithDenyUnknownFields { owner_name, property }) && owner_name@ == n@
                    && property@ == self.properties@[first_flattened(self.properties@, 0)->0].rust_name@
            } else {
                r is Ok
            },
        }
    }

    /// The checks `build()` applies: a valid name, valid and unique
    /// property names, and no flattened property in a struct that denies
    /// unknown fields (serde does not support the combination).
    pub fn validate(&self) -> (r: Result<(), Error>)
        ensures
            self.checked(r),
    {
        let named = self.common.validate_name("struct");
        if named.is_err() {
            return named;
        }
        let names = check_properties(self.common.built_name(), &self.properties);
        if names.is_err() {
            return names;
        }
        if self.deny_unknown_fields {
            match first_flattened_index(&self.properties) {
                Some(i) => {
                    return Err(
                        Error::FlattenWithDenyUnknownFields {
                            owner_name: self.common.built_name().to_owned(),
                            property: self.properties[i].rust_name.clone(),
                        },
                    );
                },
                None => {},
            }
        }
        Ok(())
    }

    /// Apply the checks and wrap the shape as a [`Type`].
    pub fn build(self) -> (r: Result<Type, Error>)
        ensures
            r is Ok <==> Type::Struct(self).spec_valid(),
            match r {
                Ok(t) => t == Type::Struct(self) && self.checked(Ok(())),
                Err(e) => self.checked(Err(e)),
            },
    {
        match self.validate() {
            Ok(()) => Ok(Type::Struct(self)),
            Err(e) => Err(e),
        }
    }

    /// The struct's properties, in declaration order.
    pub fn get_properties(&self) -> (r: &[StructProperty])
        ensures
            r@ == self.properties@,
    {
        self.properties.as_slice()
    }

    /// Whether deserialization rejects unknown fields.
    pub fn get_deny_unknown_fields(&self) -> (b: bool)
        ensures
            b == self.deny_unknown_fields,
    {
        self.deny_unknown_fields
    }
}

/// A fieldless struct with a fixed JSON representation.
#[derive(Debug, Clone)]
pub struct UnitStruct {
    pub common: TypeCommon,
    pub repr: JsonValue,
}

impl UnitStruct {
    /// Start a unit struct that serializes as `repr`.
    pub fn new(repr: JsonValue) -> (u: Self)
        ensures
            u.common.is_blank(),
            u.repr == repr,
    {
        UnitStruct { common: TypeCommon::new(), repr }
    }

    /// Whether `r` is what the checks `build()` applies give.
    pub open spec fn checked(self, r: Result<(), Error>) -> bool {
        match self.common.name {
            None => r matches Err(Error::MissingTypeName { kind: k }) && k == "unit struct",
            Some(n) => ident_result(r, "unit struct", n@),
        }
    }

    /// The checks `build()` applies: a valid name.
    pub fn validate(&self) -> (r: Result<(), Error>)
        ensures
            self.checked(r),
    {
        self.common.validate_name("unit struct")
    }

    /// Apply the checks and wrap the shape as a [`Type`].
    pub fn build(self) -> (r: Result<Type, Error>)
        ensures
            r is Ok <==> Type::UnitStruct(self).spec_valid(),
            match r {
                Ok(t) => t == Type::UnitStruct(self) && self.checked(Ok(())),
                Err(e) => self.checked(Err(e)),
            },
    {
        match self.validate() {
            Ok(()) => Ok(Type::UnitStruct(self)),
            Err(e) => Err(e),
        }
    }

    /// The fixed JSON representation.
    pub fn get_repr(&self) -> (r: &JsonValue)
        ensures
            *r == self.repr,
    {
        &self.repr
    }
}

/// A tuple struct: positional fields, and optionally a rest type that
/// holds the items beyond them.
#[derive(Debug, Clone)]
pub struct TupleStruct {
    pub common: TypeCommon,
    pub fields: Vec<u64>,
    pub rest: Option<u64>,
}

impl TupleStruct {
    /// Start a tuple struct under construction.
    pub fn new() -> (t: Self)
        ensures
            t.common.is_blank(),
            t.fields@.len() == 0,
            t.rest is None,
    {
        TupleStruct { common: TypeCommon::new(), fields: Vec::new(), rest: None }
    }

    /// Append positional fields.
    pub fn fields(self, fields: Vec<u64>) -> (t: Self)
        ensures
            t.fields@ == self.fields@ + fields@,
            t.common == self.common,
            t.rest == self.rest,
    {
        let TupleStruct { common, fields: mut all, rest } = self;
        let mut more = fields;
        all.append(&mut more);
        TupleStruct { common, fields: all, rest }
    }

    /// Set the type that stores items beyond the positional fields.
    pub fn rest(self, rest: u64) -> (t: Self)
        ensures
            t.rest == Some(rest),
            t.common == self.common,
            t.fields == self.fields,
    {
        TupleStruct { rest: Some(rest), ..self }
    }

    /// What a tuple struct without fixed fields would be redundant with.
    pub open spec fn redundant_with(self) -> Seq<char> {
        match self.rest {
            Some(_) => "NewtypeStruct"@,
            None => "UnitStruct"@,
        }
    }

    /// Whether `r` is what the checks `build()` applies give.
    pub open spec fn checked(self, r: Result<(), Error>) -> bool {
        match self.common.name {
            None => r matches Err(Error::MissingTypeName { kind: k }) && k == "tuple struct",
            Some(n) => if ident_problem(n@) is Some {
                ident_result(r, "tuple struct", n@)
            } else if self.fields@.len() == 0 {
                r matches Err(Error::FieldlessTupleStruct { name, alternative }) && name@ == n@ && alternative@
                    == self.redundant_with()
            } else {
                r is Ok
            },
        }
    }

    /// The checks `build()` applies: a valid name, and at least one fixed
    /// field. Without one, the tuple struct would be a second way to write
    /// a unit struct (with no rest) or a newtype struct over its rest type.
    pub fn validate(&self) -> (r: Result<(), Error>)
        ensures
            self.checked(r),
    {
        let named = self.common.validate_name("tuple struct");
        if named.is_err() {
            return named;
        }
        if self.fields.len() == 0 {
            let alternative = match self.rest {
                Some(_) => "NewtypeStruct",
                None => "UnitStruct",
            };
            return Err(Error::FieldlessTupleStruct { name: self.common.built_name().to_owned(), alternative });
        }
        Ok(())
    }

    /// Apply the checks and wrap the shape as a [`Type`].
    pub fn build(self) -> (r: Result<Type, Error>)
        ensures
            r is Ok <==> Type::TupleStruct(self).spec_valid(),
            match r {
                Ok(t) => t == Type::TupleStruct(self) && self.checked(Ok(())),
                Err(e) => self.checked(Err(e)),
            },
    {
        match self.validate() {
            Ok(()) => Ok(Type::TupleStruct(self)),
            Err(e) => Err(e),
        }
    }

    /// The positional fields.
    pub fn get_fields(&self) -> (r: &[u64])
        ensures
            r@ == self.fields@,
    {
        self.fields.as_slice()
    }

    /// The rest type, if any.
    pub fn get_rest(&self) -> (r: Option<u64>)
        ensures
            r == self.rest,
    {
        self.rest
    }
}

/// A single-field wrapper struct.
#[derive(Debug, Clone)]
pub struct NewtypeStruct {
    pub common: TypeCommon,
    pub inner: u64,
    pub constraints: NewtypeConstraints,
}

/// Which kind of constraint says nothing that no constraint would not
/// already say: a string constraint with no bound and no pattern, or an
/// empty allow or deny list.
pub open spec fn vacuous_kind(c: NewtypeConstraints) -> Option<Seq<char>> {
    match c {
        NewtypeConstraints::String { min: None, max: None, patterns } => if patterns@.len() == 0 {
            Some("string"@)
        } else {
            None
        },
        NewtypeConstraints::AllowList(values) => if values@.len() == 0 {
            Some("allow list"@)
        } else {
            None
        },
        NewtypeConstraints::DenyList(values) => if values@.len() == 0 {
            Some("deny list"@)
        } else {
            None
        },
        _ => None,
    }
}

/// Constraints on the value a newtype struct wraps.
#[derive(Debug, Clone)]
#[non_exhaustive]
pub enum NewtypeConstraints {
    Unconstrained,
    AllowList(Vec<JsonValue>),
    DenyList(Vec<JsonValue>),
    String { min: Option<usize>, max: Option<usize>, patterns: Vec<String> },
    Array { min: Option<usize>, max: Option<usize> },
    JsonSchema(JsonValue),
}

impl NewtypeStruct {
    /// Start a newtype struct wrapping the type `inner`.
    pub fn new(inner: u64) -> (n: Self)
        ensures
            n.common.is_blank(),
            n.inner == inner,
            n.constraints is Unconstrained,
    {
        NewtypeStruct { common: TypeCommon::new(), inner, constraints: NewtypeConstraints::Unconstrained }
    }

    /// Set the constraints on the wrapped value.
    pub fn constraints(self, constraints: NewtypeConstraints) -> (n: Self)
        ensures
            n.constraints == constraints,
            n.common == self.common,
            n.inner == self.inner,
    {
        NewtypeStruct { constraints, ..self }
    }

    /// Whether `r` is what the checks `build()` applies give.
    pub open spec fn checked(self, r: Result<(), Error>) -> bool {
        match self.common.name {
            None => r matches Err(Error::MissingTypeName { kind: k }) && k == "newtype struct",
            Some(n) => if ident_problem(n@) is Some {
                ident_result(r, "newtype struct", n@)
            } else if vacuous_kind(self.constraints) is Some {
                r matches Err(Error::VacuousConstraints { name, kind }) && name@ == n@ && kind@ == vacuous_kind(
                    self.constraints,
                )->0
            } else {
                r is Ok
            },
        }
    }

    /// The checks `build()` applies: a valid name, and constraints that
    /// say something.
    pub fn validate(&self) -> (r: Result<(), Error>)
        ensures
            self.checked(r),
    {
        let named = self.common.validate_name("newtype struct");
        if named.is_err() {
            return named;
        }
        let kind = match &self.constraints {
            NewtypeConstraints::String { min: None, max: None, patterns } => {
                if patterns.len() == 0 {
                    Some("string")
                } else {
                    None
                }
            },
            NewtypeConstraints::AllowList(values) => {
                if values.len() == 0 {
                    Some("allow list")
                } else {
                    None
                }
            },
            NewtypeConstraints::DenyList(values) => {
                if values.len() == 0 {
                    Some("deny list")
                } else {
                    None
                }
            },
            _ => None,
        };
        match kind {
            Some(kind) => Err(Error::VacuousConstraints { name: self.common.built_name().to_owned(), kind }),
            None => Ok(()),
        }
    }

    /// Apply the checks and wrap the shape as a [`Type`].
    pub fn build(self) -> (r: Result<Type, Error>)
        ensures
            r is Ok <==> Type::NewtypeStruct(self).spec_valid(),
            match r {
                Ok(t) => t == Type::NewtypeStruct(self) && self.checked(Ok(())),
                Err(e) => self.checked(Err(e)),
            },
    {
        match self.validate() {
            Ok(()) => Ok(Type::NewtypeStruct(self)),
            Err(e) => Err(e),
        }
    }

    /// The ID of the wrapped type.
    pub fn get_inner(&self) -> (r: u64)
        ensures
            r == self.inner,
    {
        self.inner
    }

    /// The constraints on the wrapped value.
    pub fn get_constraints(&self) -> (r: &NewtypeConstraints)
        ensures
            *r == self.constraints,
    {
        &self.constraints
    }
}

impl Struct {
    /// Set the struct's name.
    pub fn name(self, name: &str) -> (v: Self)
        ensures
            v.common.name matches Some(n) && n@ == name@,
            v.common == (TypeCommon { name: v.common.name, ..self.common }),
            v == (Struct { common: v.common, ..self }),
    {
        let Struct { common, properties, deny_unknown_fields } = self;
        Struct { common: common.with_name(name), properties, deny_unknown_fields }
    }

    /// Set the description (doc comment source).
    pub fn description(self, description: &str) -> (v: Self)
        ensures
            v.common.description matches Some(d) && d@ == description@,
            v.common == (TypeCommon { description: v.common.description, ..self.common }),
            v == (Struct { common: v.common, ..self }),
    {
        let Struct { common, properties, deny_unknown_fields } = self;
        Struct { common: common.with_description(description), properties, deny_unknown_fields }
    }

    /// Set the default value.
    pub fn default(self, default: JsonValue) -> (v: Self)
        ensures
            v.common == (TypeCommon { default: Some(default), ..self.common }),
            v == (Struct { common: v.common, ..self }),
    {
        let Struct { common, properties, deny_unknown_fields } = self;
        Struct { common: common.with_default(default), properties, deny_unknown_fields }
    }

    /// Add opaque derive paths applied to this type alone, in addition
    /// to the crate-wide paths the settings name.
    pub fn extra_derives(self, derives: Vec<String>) -> (v: Self)
        ensures
            v.common.extra_derives@ == self.common.extra_derives@ + derives@,
            v.common == (TypeCommon { extra_derives: v.common.extra_derives, ..self.common }),
            v == (Struct { common: v.common, ..self }),
    {
        let Struct { common, properties, deny_unknown_fields } = self;
        Struct { common: common.with_extra_derives(derives), properties, deny_unknown_fields }
    }

    /// Add opaque attributes applied to this type alone, in addition to
    /// the crate-wide attributes the settings name.
    pub fn extra_attrs(self, attrs: Vec<String>) -> (v: Self)
        ensures
            v.common.extra_attrs@ == self.common.extra_attrs@ + attrs@,
            v.common == (TypeCommon { extra_attrs: v.common.extra_attrs, ..self.common }),
            v == (Struct { common: v.common, ..self }),
    {
        let Struct { common, properties, deny_unknown_fields } = self;
        Struct { common: common.with_extra_attrs(attrs), properties, deny_unknown_fields }
    }

    /// The struct's name, if one has been set.
    pub fn get_name(&self) -> (r: Option<&str>)
        ensures
            r is Some <==> self.common.name is Some,
            r matches Some(n) ==> n@ == self.common.name->0@,
    {
        self.common.name()
    }

    /// The description (doc comment source), if any.
    pub fn get_description(&self) -> (r: Option<&str>)
        ensures
            r is Some <==> self.common.description is Some,
            r matches Some(d) ==> d@ == self.common.description->0@,
    {
        self.common.description()
    }

    /// The default value, if any.
    pub fn get_default(&self) -> (r: Option<&JsonValue>)
        ensures
            r is Some <==> self.common.default is Some,
            r matches Some(d) ==> *d == self.common.default->0,
    {
        self.common.default()
    }

    /// The opaque derive paths applied to this type alone.
    pub fn get_extra_derives(&self) -> (r: &[String])
        ensures
            r@ == self.common.extra_derives@,
    {
        self.common.extra_derives()
    }

    /// The opaque attributes applied to this type alone.
    pub fn get_extra_attrs(&self) -> (r: &[String])
        ensures
            r@ == self.common.extra_attrs@,
    {
        self.common.extra_attrs()
    }
}

impl UnitStruct {
    /// Set the unit struct's name.
    pub fn name(self, name: &str) -> (v: Self)
        ensures
            v.common.name matches Some(n) && n@ == name@,
            v.common == (TypeCommon { name: v.common.name, ..self.common }),
            v == (UnitStruct { common: v.common, ..self }),
    {
        let UnitStruct { common, repr } = self;
        UnitStruct { common: common.with_name(name), repr }
    }

    /// Set the description (doc comment source).
    pub fn description(self, description: &str) -> (v: Self)
        ensures
            v.common.description matches Some(d) && d@ == description@,
            v.common == (TypeCommon { description: v.common.description, ..self.common }),
            v == (UnitStruct { common: v.common, ..self }),
    {
        let UnitStruct { common, repr } = self;
        UnitStruct { common: common.with_description(description), repr }
    }

    /// Set the default value.
    pub fn default(self, default: JsonValue) -> (v: Self)
        ensures
            v.common == (TypeCommon { default: Some(default), ..self.common }),
            v == (UnitStruct { common: v.common, ..self }),
    {
        let UnitStruct { common, repr } = self;
        UnitStruct { common: common.with_default(default), repr }
    }

    /// Add opaque derive paths applied to this type alone, in addition
    /// to the crate-wide paths the settings name.
    pub fn extra_derives(self, derives: Vec<String>) -> (v: Self)
        ensures
            v.common.extra_derives@ == self.common.extra_derives@ + derives@,
            v.common == (TypeCommon { extra_derives: v.common.extra_derives, ..self.common }),
            v == (UnitStruct { common: v.common, ..self }),
    {
        let UnitStruct { common, repr } = self;
        UnitStruct { common: common.with_extra_derives(derives), repr }
    }

    /// Add opaque attributes applied to this type alone, in addition to
    /// the crate-wide attributes the settings name.
    pub fn extra_attrs(self, attrs: Vec<String>) -> (v: Self)
        ensures
            v.common.extra_attrs@ == self.common.extra_attrs@ + attrs@,
            v.common == (TypeCommon { extra_attrs: v.common.extra_attrs, ..self.common }),
            v == (UnitStruct { common: v.common, ..self }),
    {
        let UnitStruct { common, repr } = self;
        UnitStruct { common: common.with_extra_attrs(attrs), repr }
    }

    /// The unit struct's name, if one has been set.
    pub fn get_name(&self) -> (r: Option<&str>)
        ensures
            r is Some <==> self.common.name is Some,
            r matches Some(n) ==> n@ == self.common.name->0@,
    {
        self.common.name()
    }

    /// The description (doc comment source), if any.
    pub fn get_description(&self) -> (r: Option<&str>)
        ensures
            r is Some <==> self.common.description is Some,
            r matches Some(d) ==> d@ == self.common.description->0@,
    {
        self.common.description()
    }

    /// The default value, if any.
    pub fn get_default(&self) -> (r: Option<&JsonValue>)
        ensures
            r is Some <==> self.common.default is Some,
            r matches Some(d) ==> *d == self.common.default->0,
    {
        self.common.default()
    }

    /// The opaque derive paths applied to this type alone.
    pub fn get_extra_derives(&self) -> (r: &[String])
        ensures
            r@ == self.common.extra_derives@,
    {
        self.common.extra_derives()
    }

    /// The opaque attributes applied to this type alone.
    pub fn get_extra_attrs(&self) -> (r: &[String])
        ensures
            r@ == self.common.extra_attrs@,
    {
        self.common.extra_attrs()
    }
}

impl TupleStruct {
    /// Set the tuple struct's name.
    pub fn name(self, name: &str) -> (v: Self)
        ensures
            v.common.name matches Some(n) && n@ == name@,
            v.common == (TypeCommon { name: v.common.name, ..self.common }),
            v == (TupleStruct { common: v.common, ..self }),
    {
        let TupleStruct { common, fields, rest } = self;
        TupleStruct { common: common.with_name(name), fields, rest }
    }

    /// Set the description (doc comment source).
    pub fn description(self, description: &str) -> (v: Self)
        ensures
            v.common.description matches Some(d) && d@ == description@,
            v.common == (TypeCommon { description: v.common.description, ..self.common }),
            v == (TupleStruct { common: v.common, ..self }),
    {
        let TupleStruct { common, fields, rest } = self;
        TupleStruct { common: common.with_description(description), fields, rest }
    }

    /// Set the default value.
    pub fn default(self, default: JsonValue) -> (v: Self)
        ensures
            v.common == (TypeCommon { default: Some(default), ..self.common }),
            v == (TupleStruct { common: v.common, ..self }),
    {
        let TupleStruct { common, fields, rest } = self;
        TupleStruct { common: common.with_default(default), fields, rest }
    }

    /// Add opaque derive paths applied to this type alone, in addition
    /// to the crate-wide paths the settings name.
    pub fn extra_derives(self, derives: Vec<String>) -> (v: Self)
        ensures
            v.common.extra_derives@ == self.common.extra_derives@ + derives@,
            v.common == (TypeCommon { extra_derives: v.common.extra_derives, ..self.common }),
            v == (TupleStruct { common: v.common, ..self }),
    {
        let TupleStruct { common, fields, rest } = self;
        TupleStruct { common: common.with_extra_derives(derives), fields, rest }
    }

    /// Add opaque attributes applied to this type alone, in addition to
    /// the crate-wide attributes the settings name.
    pub fn extra_attrs(self, attrs: Vec<String>) -> (v: Self)
        ensures
            v.common.extra_attrs@ == self.common.extra_attrs@ + attrs@,
            v.common == (TypeCommon { extra_attrs: v.common.extra_attrs, ..self.common }),
            v == (TupleStruct { common: v.common, ..self }),
    {
        let TupleStruct { common, fields, rest } = self;
        TupleStruct { common: common.with_extra_attrs(attrs), fields, rest }
    }

    /// The tuple struct's name, if one has been set.
    pub fn get_name(&self) -> (r: Option<&str>)
        ensures
            r is Some <==> self.common.name is Some,
            r matches Some(n) ==> n@ == self.common.name->0@,
    {
        self.common.name()
    }

    /// The description (doc comment source), if any.
    pub fn get_description(&self) -> (r: Option<&str>)
        ensures
            r is Some <==> self.common.description is Some,
            r matches Some(d) ==> d@ == self.common.description->0@,
    {
        self.common.description()
    }

    /// The default value, if any.
    pub fn get_default(&self) -> (r: Option<&JsonValue>)
        ensures
            r is Some <==> self.common.default is Some,
            r matches Some(d) ==> *d == self.common.default->0,
    {
        self.common.default()
    }

    /// The opaque derive paths applied to this type alone.
    pub fn get_extra_derives(&self) -> (r: &[String])
        ensures
            r@ == self.common.extra_derives@,
    {
        self.common.extra_derives()
    }

    /// The opaque attributes applied to this type alone.
    pub fn get_extra_attrs(&self) -> (r: &[String])
        ensures
            r@ == self.common.extra_attrs@,
    {
        self.common.extra_attrs()
    }
}

impl NewtypeStruct {
    /// Set the newtype struct's name.
    pub fn name(self, name: &str) -> (v: Self)
        ensures
            v.common.name matches Some(n) && n@ == name@,
            v.common == (TypeCommon { name: v.common.name, ..self.common }),
            v == (NewtypeStruct { common: v.common, ..self }),
    {
        let NewtypeStruct { common, inner, constraints } = self;
        NewtypeStruct { common: common.with_name(name), inner, constraints }
    }

    /// Set the description (doc comment source).
    pub fn description(self, description: &str) -> (v: Self)
        ensures
            v.common.description matches Some(d) && d@ == description@,
            v.common == (TypeCommon { description: v.common.description, ..self.common }),
            v == (NewtypeStruct { common: v.common, ..self }),
    {
        let NewtypeStruct { common, inner, constraints } = self;
        NewtypeStruct { common: common.with_description(description), inner, constraints }
    }

    /// Set the default value.
    pub fn default(self, default: JsonValue) -> (v: Self)
        ensures
            v.common == (TypeCommon { default: Some(default), ..self.common }),
            v == (NewtypeStruct { common: v.common, ..self }),
    {
        let NewtypeStruct { common, inner, constraints } = self;
        NewtypeStruct { common: common.with_default(default), inner, constraints }
    }

    /// Add opaque derive paths applied to this type alone, in addition
    /// to the crate-wide paths the settings name.
    pub fn extra_derives(self, derives: Vec<String>) -> (v: Self)
        ensures
            v.common.extra_derives@ == self.common.extra_derives@ + derives@,
            v.common == (TypeCommon { extra_derives: v.common.extra_derives, ..self.common }),
            v == (NewtypeStruct { common: v.common, ..self }),
    {
        let NewtypeStruct { common, inner, constraints } = self;
        NewtypeStruct { common: common.with_extra_derives(derives), inner, constraints }
    }

    /// Add opaque attributes applied to this type alone, in addition to
    /// the crate-wide attributes the settings name.
    pub fn extra_attrs(self, attrs: Vec<String>) -> (v: Self)
        ensures
            v.common.extra_attrs@ == self.common.extra_attrs@ + attrs@,
            v.common == (TypeCommon { extra_attrs: v.common.extra_attrs, ..self.common }),
            v == (NewtypeStruct { common: v.common, ..self }),
    {
        let NewtypeStruct { common, inner, constraints } = self;
        NewtypeStruct { common: common.with_extra_attrs(attrs), inner, constraints }
    }

    /// The newtype struct's name, if one has been set.
    pub fn get_name(&self) -> (r: Option<&str>)
        ensures
            r is Some <==> self.common.name is Some,
            r matches Some(n) ==> n@ == self.common.name->0@,
    {
        self.common.name()
    }

    /// The description (doc comment source), if any.
    pub fn get_description(&self) -> (r: Option<&str>)
        ensures
            r is Some <==> self.common.description is Some,
            r matches Some(d) ==> d@ == self.common.description->0@,
    {
        self.common.description()
    }

    /// The default value, if any.
    pub fn get_default(&self) -> (r: Option<&JsonValue>)
        ensures
            r is Some <==> self.common.default is Some,
            r matches Some(d) ==> *d == self.common.default->0,
    {
        self.common.default()
    }

    /// The opaque derive paths applied to this type alone.
    pub fn get_extra_derives(&self) -> (r: &[String])
        ensures
            r@ == self.common.extra_derives@,
    {
        self.common.extra_derives()
    }

    /// The opaque attributes applied to this type alone.
    pub fn get_extra_attrs(&self) -> (r: &[String])
        ensures
            r@ == self.common.extra_attrs@,
    {
        self.common.extra_attrs()
    }
}

} // verus!
