//! The error type, and the detail types its conflicts are built from.
//!
//! Everything a consumer can get wrong reports through [`Error`], from a
//! `build()` call on a half-assembled type through insertion and on to
//! finalization. Trait conflicts carry a [`TraitConflict`] each, which
//! names the trait, where the requirement came from
//! ([`RequirementOrigin`]), the hops it took ([`PathStep`]), the type that
//! could not satisfy it, and why ([`OffenderReason`]).

use vstd::prelude::*;

use crate::json::JsonValue;
use crate::traits::{TraitProvision, TypespaceTrait};

verus! {

/// Errors that arise from an invalid shape, type graph, or settings.
///
/// Type ids are `u64` values chosen by the consumer.
#[derive(Debug, Clone)]
#[non_exhaustive]
pub enum Error {
    /// A type was inserted with an ID already in use by another type.
    DuplicateTypeId { type_id: u64 },
    /// A named type reached `build()` without a name.
    MissingTypeName { kind: &'static str },
    /// A name is not usable as a Rust identifier.
    InvalidName { kind: &'static str, name: String, message: &'static str },
    /// An enum was built without a tag type.
    MissingTagType { name: String },
    /// A tuple struct was built with no fixed fields.
    FieldlessTupleStruct { name: String, alternative: &'static str },
    /// Two properties or two variants of one type share a name on one
    /// axis.
    DuplicateItemName { kind: &'static str, owner_name: String, name: String, axis: NameAxis },
    /// A struct both denies unknown fields and flattens a property.
    FlattenWithDenyUnknownFields { owner_name: String, property: String },
    /// Two types in the typespace share a name.
    DuplicateTypeName { name: String, first: u64, second: u64 },
    /// A derive path supplied via settings is not a valid Rust path.
    InvalidDerive { derive: String, message: String },
    /// A container states obligations for the wrong number of type
    /// parameters.
    ContainerParameterCount {
        position: &'static str,
        path: String,
        declared: usize,
        parameters: usize,
    },
    /// A configured container answers `Unknown` for some trait.
    ContainerProvisionUnknown { position: &'static str, path: String, trait_: TypespaceTrait },
    /// A native type states obligations for the wrong number of type
    /// parameters.
    NativeParameterCount { path: String, declared: usize, parameters: usize },
    /// A type refers to a child type ID for which no type was inserted.
    UnknownTypeId { type_id: u64, child_id: u64 },
    /// A transparent wrapper (`Box`, type alias, newtype struct) wraps
    /// `Type::Never`.
    NeverInTransparentWrapper { wrapper: &'static str, type_id: u64 },
    /// A position that requires a value has `Type::Never` as its type.
    NeverInValuePosition { position: &'static str, name: String, type_id: u64 },
    /// A cycle in the type graph passes through no named type.
    ///
    /// `type_id` refers to `child_id`, and `child_id` reaches `type_id`
    /// through anonymous types only.
    AnonymousCycle { type_id: u64, child_id: u64 },
    /// Trait requirements that types in the graph cannot satisfy.
    TraitConflicts { conflicts: Vec<TraitConflict> },
    /// A newtype struct states constraints with nothing in them.
    VacuousConstraints { name: String, kind: &'static str },
    /// A default value is not valid for the type it is attached to.
    InvalidDefault { value: JsonValue, id: u64, reason: String },
    /// A declared custom optional-nullable wrapper does not claim an
    /// unconditional `Default`.
    OptionalNullableWrapperDefault { path: String, provision: TraitProvision },
}

/// The axis on which a name collision occurred.
#[derive(Debug, Clone, Copy, PartialEq, Eq, Structural)]
pub enum NameAxis {
    /// The Rust identifier in generated code.
    Rust,
    /// The serialized (wire) name, after any rename.
    Wire,
}

/// A trait requirement that a type cannot satisfy.
#[derive(Debug, Clone)]
#[non_exhaustive]
pub struct TraitConflict {
    /// The trait that could not be satisfied.
    pub required: TypespaceTrait,
    /// Where the requirement originated.
    pub origin: RequirementOrigin,
    /// The propagation hops from the origin to the offender, in
    /// propagation order.
    pub path: Vec<PathStep>,
    /// The ID of the type that cannot satisfy the requirement.
    pub offender: u64,
    /// Why the offender cannot satisfy the requirement.
    pub reason: OffenderReason,
}

/// Where a trait requirement originated.
#[derive(Debug, Clone)]
#[non_exhaustive]
pub enum RequirementOrigin {
    /// A container or native type with this ID demands the trait of the
    /// parameter at `relation`.
    ContainerParameter { container: u64, relation: Relation },
    /// A property of the type with this ID carries `#[serde(default)]`.
    PropertyDefault(u64),
    /// The default value of the type with this ID constructs it.
    DefaultValue(u64),
    /// Settings require the trait of every named type.
    GlobalSettings,
}

/// One hop in a trait requirement's propagation path: the type with
/// `type_id` passed the requirement along to the child reached via
/// `relation`.
#[derive(Debug, Clone)]
pub struct PathStep {
    pub type_id: u64,
    pub relation: Relation,
}

/// The relation by which a trait requirement moves from a type to one of
/// the types it contains.
#[derive(Debug, Clone)]
#[non_exhaustive]
pub enum Relation {
    /// A struct property with the given Rust name.
    Field(String),
    /// An enum variant with the given Rust name.
    Variant(String),
    /// The element type of a vec, set, array, tuple, or option.
    Element,
    /// The key type of a map.
    Key,
    /// The value type of a map.
    Value,
    /// The type parameter of a native type at the given index.
    Parameter(usize),
    /// The type inside a box.
    Boxed,
    /// The type inside a newtype struct.
    Inner,
    /// The target of a type alias.
    Target,
}

/// Why a type cannot satisfy a trait requirement.
#[derive(Debug, Clone)]
#[non_exhaustive]
pub enum OffenderReason {
    /// A built-in type that is incapable of implementing the trait.
    Primitive { owner_name: String },
    /// A native type that is known not to implement the trait.
    NativeMissingImpl { owner_name: String },
    /// The configured container declares that it never provides the
    /// trait.
    ContainerMissingImpl { owner_name: String },
    /// A generated type that cannot implement the trait in any form.
    TypeCannotImplement { kind: &'static str },
    /// An untagged enum carries a variant whose payload parses every
    /// string.
    IrrefutableVariantPayload { variant: String },
}

} // verus!
