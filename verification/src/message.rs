//! The text of a trait conflict: what could not be satisfied and why,
//! then each hop of the requirement's path, innermost first, rustc style,
//! and last where the requirement started.

use vstd::prelude::*;
use vstd::string::StringExecFns;

use crate::defaults::decimal_u64;
use crate::error::{Error, NameAxis, OffenderReason, PathStep, Relation, RequirementOrigin, TraitConflict};
use crate::json::json_of;
use crate::json_text::{json_text, json_value_text};
use crate::finalize::{decimal, decimal_text};
use crate::traits::trait_text;

verus! {

/// How a message names a relation out of a type.
pub open spec fn relation_text(r: Relation) -> Seq<char> {
    match r {
        Relation::Field(n) => "its field `"@ + n@ + "`"@,
        Relation::Variant(n) => "its variant `"@ + n@ + "`"@,
        Relation::Element => "its element type"@,
        Relation::Key => "its key type"@,
        Relation::Value => "its value type"@,
        Relation::Parameter(i) => "its type parameter "@ + decimal(i as nat),
        Relation::Boxed => "its boxed type"@,
        Relation::Inner => "its inner type"@,
        Relation::Target => "its target type"@,
    }
}

/// The first line of conflict `c`: the offender, the trait, and why.
pub open spec fn reason_line(c: TraitConflict) -> Seq<char> {
    let req = trait_text(c.required);
    let off = decimal(c.offender as nat);
    match c.reason {
        OffenderReason::Primitive { owner_name } => "type `"@ + owner_name@ + "` (id `"@ + off
            + "`) cannot implement the required trait `"@ + req + "`"@,
        OffenderReason::NativeMissingImpl { owner_name } => "native type `"@ + owner_name@ + "` (id `"@ + off
            + "`) does not declare the required trait `"@ + req + "`"@,
        OffenderReason::ContainerMissingImpl { owner_name } => "the configured container `"@ + owner_name@ + "` (id `"@
            + off + "`) does not provide the required trait `"@ + req + "`"@,
        OffenderReason::TypeCannotImplement { kind } => "the generated "@ + kind@ + " with id `"@ + off
            + "` cannot implement the required trait `"@ + req + "`"@,
        OffenderReason::IrrefutableVariantPayload { variant } => "the untagged enum with id `"@ + off
            + "` cannot implement the required trait `"@ + req
            + "`: its `FromStr` would try the variants in order, and the payload of its variant `"@ + variant@
            + "` parses every string"@,
    }
}

/// The line of one hop.
pub open spec fn hop_line(p: PathStep) -> Seq<char> {
    "\n    required because `"@ + decimal(p.type_id as nat) + "` passes the requirement to "@ + relation_text(p.relation)
}

/// The lines of the hops of `path`, innermost (last) first.
pub open spec fn hops_text(path: Seq<PathStep>) -> Seq<char>
    decreases path.len(),
{
    if path.len() == 0 {
        Seq::empty()
    } else {
        hop_line(path.last()) + hops_text(path.drop_last())
    }
}

/// The last line of conflict `c`: where its requirement started.
pub open spec fn origin_line(c: TraitConflict) -> Seq<char> {
    let req = trait_text(c.required);
    match c.origin {
        RequirementOrigin::ContainerParameter { container, relation } => "\n    required because the container `"@
            + decimal(container as nat) + "` requires `"@ + req + "` of "@ + relation_text(relation),
        RequirementOrigin::PropertyDefault(id) => "\n    required because a property of `"@ + decimal(id as nat)
            + "` deserializes with `#[serde(default)]` and so must implement `"@ + req + "`"@,
        RequirementOrigin::DefaultValue(id) => "\n    required because the default value of `"@ + decimal(id as nat)
            + "` needs to construct it; and generated code does so by deserializing it"@,
        RequirementOrigin::GlobalSettings => "\n    required because global settings require `"@ + req
            + "` of all types"@,
    }
}

/// The whole text of conflict `c`.
pub open spec fn conflict_message(c: TraitConflict) -> Seq<char> {
    reason_line(c) + hops_text(c.path@) + origin_line(c)
}

/// The texts of `cs`, one after another, separated by line breaks.
pub open spec fn conflicts_message(cs: Seq<TraitConflict>) -> Seq<char>
    decreases cs.len(),
{
    if cs.len() == 0 {
        Seq::empty()
    } else if cs.len() == 1 {
        conflict_message(cs[0])
    } else {
        conflicts_message(cs.drop_last()) + "\n"@ + conflict_message(cs.last())
    }
}

fn relation_string(r: &Relation) -> (s: String)
    ensures
        s@ == relation_text(*r),
{
    match r {
        Relation::Field(n) => "its field `".to_owned().concat(n.as_str()).concat("`"),
        Relation::Variant(n) => "its variant `".to_owned().concat(n.as_str()).concat("`"),
        Relation::Element => "its element type".to_owned(),
        Relation::Key => "its key type".to_owned(),
        Relation::Value => "its value type".to_owned(),
        Relation::Parameter(i) => "its type parameter ".to_owned().concat(decimal_text(*i).as_str()),
        Relation::Boxed => "its boxed type".to_owned(),
        Relation::Inner => "its inner type".to_owned(),
        Relation::Target => "its target type".to_owned(),
    }
}

fn reason_string(c: &TraitConflict) -> (s: String)
    ensures
        s@ == reason_line(*c),
{
    let req = c.required.name();
    let off = decimal_u64(c.offender);
    match &c.reason {
        OffenderReason::Primitive { owner_name } => "type `".to_owned().concat(owner_name.as_str()).concat(
            "` (id `",
        ).concat(off.as_str()).concat("`) cannot implement the required trait `").concat(req).concat("`"),
        OffenderReason::NativeMissingImpl { owner_name } => "native type `".to_owned().concat(owner_name.as_str()).concat(
            "` (id `",
        ).concat(off.as_str()).concat("`) does not declare the required trait `").concat(req).concat("`"),
        OffenderReason::ContainerMissingImpl { owner_name } => "the configured container `".to_owned().concat(
            owner_name.as_str(),
        ).concat("` (id `").concat(off.as_str()).concat("`) does not provide the required trait `").concat(req).concat(
            "`",
        ),
        OffenderReason::TypeCannotImplement { kind } => "the generated ".to_owned().concat(kind).concat(
            " with id `",
        ).concat(off.as_str()).concat("` cannot implement the required trait `").concat(req).concat("`"),
        OffenderReason::IrrefutableVariantPayload { variant } => "the untagged enum with id `".to_owned().concat(
            off.as_str(),
        ).concat("` cannot implement the required trait `").concat(req).concat(
            "`: its `FromStr` would try the variants in order, and the payload of its variant `",
        ).concat(variant.as_str()).concat("` parses every string"),
    }
}

/// The lines of the first `k` hops of `path`, innermost first.
fn hops_string(path: &Vec<PathStep>, k: usize) -> (s: String)
    requires
        k <= path@.len(),
    ensures
        s@ == hops_text(path@.take(k as int)),
    decreases k,
{
    if k == 0 {
        proof {
            assert(path@.take(0) =~= Seq::<PathStep>::empty());
        }
        String::new()
    } else {
        let p = &path[k - 1];
        let line = "\n    required because `".to_owned().concat(decimal_u64(p.type_id).as_str()).concat(
            "` passes the requirement to ",
        ).concat(relation_string(&p.relation).as_str());
        let rest = hops_string(path, k - 1);
        proof {
            assert(path@.take(k as int).drop_last() =~= path@.take(k - 1));
            assert(path@.take(k as int).last() == path@[k - 1]);
        }
        line.concat(rest.as_str())
    }
}

fn origin_string(c: &TraitConflict) -> (s: String)
    ensures
        s@ == origin_line(*c),
{
    let req = c.required.name();
    match &c.origin {
        RequirementOrigin::ContainerParameter { container, relation } => "\n    required because the container `".to_owned().concat(
            decimal_u64(*container).as_str(),
        ).concat("` requires `").concat(req).concat("` of ").concat(relation_string(relation).as_str()),
        RequirementOrigin::PropertyDefault(id) => "\n    required because a property of `".to_owned().concat(
            decimal_u64(*id).as_str(),
        ).concat("` deserializes with `#[serde(default)]` and so must implement `").concat(req).concat("`"),
        RequirementOrigin::DefaultValue(id) => "\n    required because the default value of `".to_owned().concat(
            decimal_u64(*id).as_str(),
        ).concat("` needs to construct it; and generated code does so by deserializing it"),
        RequirementOrigin::GlobalSettings => "\n    required because global settings require `".to_owned().concat(
            req,
        ).concat("` of all types"),
    }
}

impl TraitConflict {
    /// The conflict as a message: the offender, the trait, and why; then
    /// one line per hop of the path, innermost first; then where the
    /// requirement started.
    pub fn message(&self) -> (r: String)
        ensures
            r@ == conflict_message(*self),
    {
        proof {
            assert(self.path@.take(self.path@.len() as int) =~= self.path@);
        }
        reason_string(self).concat(hops_string(&self.path, self.path.len()).as_str()).concat(origin_string(self).as_str())
    }
}

/// The messages of `conflicts`, one after another, separated by line
/// breaks.
pub fn format_conflicts(conflicts: &Vec<TraitConflict>) -> (r: String)
    ensures
        r@ == conflicts_message(conflicts@),
{
    let mut out = String::new();
    let mut i: usize = 0;
    while i < conflicts.len()
        invariant
            i <= conflicts@.len(),
            out@ == conflicts_message(conflicts@.take(i as int)),
        decreases conflicts@.len() - i,
    {
        let m = conflicts[i].message();
        proof {
            assert(conflicts@.take(i + 1).drop_last() =~= conflicts@.take(i as int));
            assert(conflicts@.take(i + 1).last() == conflicts@[i as int]);
        }
        if i == 0 {
            out = m;
            proof {
                assert(conflicts@.take(1)[0] == conflicts@[0]);
            }
        } else {
            out.append("\n");
            out.append(m.as_str());
        }
        i = i + 1;
    }
    proof {
        assert(conflicts@.take(conflicts@.len() as int) =~= conflicts@);
    }
    out
}

/// How a message names a name axis.
pub open spec fn axis_text(a: NameAxis) -> Seq<char> {
    match a {
        NameAxis::Rust => "Rust"@,
        NameAxis::Wire => "wire"@,
    }
}

/// The message of error `e`.
pub open spec fn error_message(e: Error) -> Seq<char> {
    match e {
        Error::DuplicateTypeId { type_id } => "a type with the id `"@ + decimal(type_id as nat)
            + "` has already been inserted"@,
        Error::MissingTypeName { kind } => "cannot build the "@ + kind@ + ": no name was provided"@,
        Error::InvalidName { kind, name, message } => "the "@ + kind@ + " name `"@ + name@ + "` "@ + message@,
        Error::MissingTagType { name } => "cannot build the enum `"@ + name@ + "`: no tag type was provided"@,
        Error::FieldlessTupleStruct { name, alternative } => "cannot build the tuple struct `"@ + name@
            + "`: it has no fixed fields, which makes it redundant with "@ + alternative@,
        Error::DuplicateItemName { kind, owner_name, name, axis } => "in `"@ + owner_name@ + "`, the "@ + axis_text(axis)
            + " name `"@ + name@ + "` is used by more than one "@ + kind@,
        Error::FlattenWithDenyUnknownFields { owner_name, property } => "`"@ + owner_name@
            + "` denies unknown fields and flattens the property `"@ + property@
            + "`; serde does not support that combination"@,
        Error::DuplicateTypeName { name, first, second } => "the types with ids `"@ + decimal(first as nat) + "` and `"@
            + decimal(second as nat) + "` are both named `"@ + name@ + "`"@,
        Error::InvalidDerive { derive, message } => "the derive `"@ + derive@ + "` is not a valid Rust path: "@ + message@,
        Error::ContainerParameterCount { position, path, declared, parameters } => "the "@ + position@ + " container `"@
            + path@ + "` states obligations for "@ + decimal(declared as nat) + " type parameter(s), but the "@ + position@
            + " position renders "@ + decimal(parameters as nat),
        Error::ContainerProvisionUnknown { position, path, trait_ } => "the "@ + position@ + " container `"@ + path@
            + "` answers `unknown` for the trait `"@ + trait_text(trait_) + "`, which only a native type may do"@,
        Error::NativeParameterCount { path, declared, parameters } => "the native type `"@ + path@
            + "` states obligations for "@ + decimal(declared as nat) + " type parameter(s), but declares "@ + decimal(
            parameters as nat,
        ),
        Error::UnknownTypeId { type_id, child_id } => "the type with id `"@ + decimal(type_id as nat) + "` references the id `"@
            + decimal(child_id as nat) + "` for which there is no type"@,
        Error::NeverInTransparentWrapper { wrapper, type_id } => "the "@ + wrapper@ + " with id `"@ + decimal(type_id as nat)
            + "` wraps `Type::Never`, which adds no meaning over `Type::Never` alone"@,
        Error::NeverInValuePosition { position, name, type_id } => "the "@ + position@ + " `"@ + name@
            + "` of the type with id `"@ + decimal(type_id as nat) + "` requires a value, but its type is `Type::Never`"@,
        Error::AnonymousCycle { type_id, child_id } => "the type with id `"@ + decimal(type_id as nat) + "` refers to `"@
            + decimal(child_id as nat) + "` in a cycle that passes through no named type"@,
        Error::TraitConflicts { conflicts } => conflicts_message(conflicts@),
        Error::VacuousConstraints { name, kind } => "the newtype struct `"@ + name@ + "` states "@ + kind@
            + " constraints with nothing in them"@,
        Error::InvalidDefault { value, id, reason } => "the value `"@ + json_text(json_of(value)) + "` does not fit the type `"@
            + decimal(id as nat) + "`: "@ + reason@,
        Error::OptionalNullableWrapperDefault { path, .. } => "the optional-nullable wrapper `"@ + path@
            + "` does not declare `Default` unconditionally"@,
    }
}

impl Error {
    /// The error as a message.
    pub fn message(&self) -> (r: String)
        ensures
            r@ == error_message(*self),
    {
        match self {
            Error::DuplicateTypeId { type_id } => "a type with the id `".to_owned().concat(decimal_u64(*type_id).as_str()).concat(
                "` has already been inserted",
            ),
            Error::MissingTypeName { kind } => "cannot build the ".to_owned().concat(kind).concat(": no name was provided"),
            Error::InvalidName { kind, name, message } => "the ".to_owned().concat(kind).concat(" name `").concat(
                name.as_str(),
            ).concat("` ").concat(message),
            Error::MissingTagType { name } => "cannot build the enum `".to_owned().concat(name.as_str()).concat(
                "`: no tag type was provided",
            ),
            Error::FieldlessTupleStruct { name, alternative } => "cannot build the tuple struct `".to_owned().concat(
                name.as_str(),
            ).concat("`: it has no fixed fields, which makes it redundant with ").concat(alternative),
            Error::DuplicateItemName { kind, owner_name, name, axis } => {
                let a = match axis {
                    NameAxis::Rust => "Rust",
                    NameAxis::Wire => "wire",
                };
                "in `".to_owned().concat(owner_name.as_str()).concat("`, the ").concat(a).concat(" name `").concat(
                    name.as_str(),
                ).concat("` is used by more than one ").concat(kind)
            },
            Error::FlattenWithDenyUnknownFields { owner_name, property } => "`".to_owned().concat(owner_name.as_str()).concat(
                "` denies unknown fields and flattens the property `",
            ).concat(property.as_str()).concat("`; serde does not support that combination"),
            Error::DuplicateTypeName { name, first, second } => "the types with ids `".to_owned().concat(
                decimal_u64(*first).as_str(),
            ).concat("` and `").concat(decimal_u64(*second).as_str()).concat("` are both named `").concat(name.as_str()).concat(
                "`",
            ),
            Error::InvalidDerive { derive, message } => "the derive `".to_owned().concat(derive.as_str()).concat(
                "` is not a valid Rust path: ",
            ).concat(message.as_str()),
            Error::ContainerParameterCount { position, path, declared, parameters } => "the ".to_owned().concat(position).concat(
                " container `",
            ).concat(path.as_str()).concat("` states obligations for ").concat(decimal_text(*declared).as_str()).concat(
                " type parameter(s), but the ",
            ).concat(position).concat(" position renders ").concat(decimal_text(*parameters).as_str()),
            Error::ContainerProvisionUnknown { position, path, trait_ } => "the ".to_owned().concat(position).concat(
                " container `",
            ).concat(path.as_str()).concat("` answers `unknown` for the trait `").concat(trait_.name()).concat(
                "`, which only a native type may do",
            ),
            Error::NativeParameterCount { path, declared, parameters } => "the native type `".to_owned().concat(
                path.as_str(),
            ).concat("` states obligations for ").concat(decimal_text(*declared).as_str()).concat(
                " type parameter(s), but declares ",
            ).concat(decimal_text(*parameters).as_str()),
            Error::UnknownTypeId { type_id, child_id } => "the type with id `".to_owned().concat(
                decimal_u64(*type_id).as_str(),
            ).concat("` references the id `").concat(decimal_u64(*child_id).as_str()).concat("` for which there is no type"),
            Error::NeverInTransparentWrapper { wrapper, type_id } => "the ".to_owned().concat(wrapper).concat(" with id `").concat(
                decimal_u64(*type_id).as_str(),
            ).concat("` wraps `Type::Never`, which adds no meaning over `Type::Never` alone"),
            Error::NeverInValuePosition { position, name, type_id } => "the ".to_owned().concat(position).concat(" `").concat(
                name.as_str(),
            ).concat("` of the type with id `").concat(decimal_u64(*type_id).as_str()).concat(
                "` requires a value, but its type is `Type::Never`",
            ),
            Error::AnonymousCycle { type_id, child_id } => "the type with id `".to_owned().concat(
                decimal_u64(*type_id).as_str(),
            ).concat("` refers to `").concat(decimal_u64(*child_id).as_str()).concat(
                "` in a cycle that passes through no named type",
            ),
            Error::TraitConflicts { conflicts } => format_conflicts(conflicts),
            Error::VacuousConstraints { name, kind } => "the newtype struct `".to_owned().concat(name.as_str()).concat(
                "` states ",
            ).concat(kind).concat(" constraints with nothing in them"),
            Error::InvalidDefault { value, id, reason } => "the value `".to_owned().concat(json_value_text(value).as_str()).concat(
                "` does not fit the type `",
            ).concat(decimal_u64(*id).as_str()).concat("`: ").concat(reason.as_str()),
            Error::OptionalNullableWrapperDefault { path, .. } => "the optional-nullable wrapper `".to_owned().concat(
                path.as_str(),
            ).concat("` does not declare `Default` unconditionally"),
        }
    }
}

} // verus!
