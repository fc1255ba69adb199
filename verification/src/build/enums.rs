use vstd::prelude::*;

use crate::build::Type;
use vstd::string::StringExecFns;

use crate::build::common::{ident_problem, ident_result, validate_ident, TypeCommon};
use crate::build::structs::{check_properties, properties_result, StructProperty};
use crate::error::{Error, NameAxis};
use crate::json::{str_equal, JsonValue};

verus! {

/// An enum.
///
/// An `Enum` is its own builder: [`Enum::new`] starts one under
/// construction, the fluent methods fill it in (its name and tag type are
/// both required), and `build()` validates it.
#[derive(Debug, Clone)]
pub struct Enum {
    pub common: TypeCommon,
    pub tag_type: Option<EnumTagType>,
    pub variants: Vec<EnumVariant>,
    pub deny_unknown_fields: bool,
    /// Recorded by finalization: the Rust name of the first variant of an
    /// untagged enum, other than its last, whose payload parses every
    /// string. The enum's `FromStr` would try the variants in order, so
    /// every variant after it would be unreachable; an enum with one is
    /// refused `FromStr`.
    pub from_str_refusal: Option<String>,
}

/// The serde tagging scheme of an enum.
#[derive(Debug, Clone, PartialEq, Eq)]
pub enum EnumTagType {
    /// serde external tagging (serde's default)
    External,
    /// serde internal tagging
    Internal { tag: String },
    /// serde adjacent tagging
    Adjacent { tag: String, content: String },
    /// serde untagged
    Untagged,
}

/// One variant of an [`Enum`].
#[derive(Debug, Clone, PartialEq, Eq)]
#[non_exhaustive]
pub struct EnumVariant {
    pub rust_name: String,
    pub rename: Option<String>,
    pub description: Option<String>,
    pub details: VariantDetails,
}

/// The shape of a variant's associated data.
#[derive(Debug, Clone, PartialEq, Eq)]
pub enum VariantDetails {
    Unit,
    Item(u64),
    Tuple(Vec<u64>),
    Struct(Vec<StructProperty>),
}

/// The name a variant serializes under: its rename, or its Rust name.
pub open spec fn variant_wire_name(v: EnumVariant) -> Seq<char> {
    match v.rename {
        Some(r) => r@,
        None => v.rust_name@,
    }
}

impl EnumVariant {
    /// A variant named `rust_name` with the given shape of associated
    /// data, serialized under its Rust name, with no description.
    pub fn new(rust_name: &str, details: VariantDetails) -> (v: Self)
        ensures
            v.rust_name@ == rust_name@,
            v.rename is None,
            v.description is None,
            v.details == details,
    {
        EnumVariant { rust_name: rust_name.to_owned(), rename: None, description: None, details }
    }

    /// Serialize the variant as `rename` instead of its Rust name.
    pub fn with_rename(self, rename: &str) -> (v: Self)
        ensures
            v.rename is Some && v.rename->0@ == rename@,
            v.rust_name == self.rust_name,
            v.description == self.description,
            v.details == self.details,
    {
        EnumVariant { rename: Some(rename.to_owned()), ..self }
    }

    /// Set the description (doc comment source).
    pub fn with_description(self, description: &str) -> (v: Self)
        ensures
            v.description is Some && v.description->0@ == description@,
            v.rust_name == self.rust_name,
            v.rename == self.rename,
            v.details == self.details,
    {
        EnumVariant { description: Some(description.to_owned()), ..self }
    }

    /// The Rust name of the variant.
    pub fn rust_name(&self) -> (r: &str)
        ensures
            r@ == self.rust_name@,
    {
        self.rust_name.as_str()
    }

    /// The serde rename, if the serialized name differs from the Rust name.
    pub fn rename(&self) -> (r: Option<&str>)
        ensures
            r is Some <==> self.rename is Some,
            r matches Some(n) ==> n@ == self.rename->0@,
    {
        match &self.rename {
            Some(n) => Some(n.as_str()),
            None => None,
        }
    }

    /// The description (doc comment source), if any.
    pub fn description(&self) -> (r: Option<&str>)
        ensures
            r is Some <==> self.description is Some,
            r matches Some(d) ==> d@ == self.description->0@,
    {
        match &self.description {
            Some(d) => Some(d.as_str()),
            None => None,
        }
    }

    /// The serialized name of the variant: the rename if one is present,
    /// the Rust name otherwise.
    pub fn json_name(&self) -> (r: &str)
        ensures
            r@ == variant_wire_name(*self),
    {
        match &self.rename {
            Some(r) => r.as_str(),
            None => self.rust_name.as_str(),
        }
    }

    /// The shape of the variant's associated data.
    pub fn details(&self) -> (r: &VariantDetails)
        ensures
            *r == self.details,
    {
        &self.details
    }
}

/// The problem with variant `i` of `vs`, given the variants before it.
pub enum VariantProblem {
    Ident(&'static str),
    DuplicateRust,
    DuplicateWire,
    Properties,
}

/// The name the properties of a struct-shaped variant are reported
/// under: `Type::Variant`.
pub open spec fn variant_scope(owner_name: Seq<char>, v: EnumVariant) -> Seq<char> {
    owner_name + "::"@ + v.rust_name@
}

/// Whether the properties of variant `v` pass their own checks.
pub open spec fn variant_properties_ok(owner_name: Seq<char>, v: EnumVariant) -> bool {
    match v.details {
        VariantDetails::Struct(props) => properties_result(Ok(()), variant_scope(owner_name, v), props@),
        _ => true,
    }
}

pub open spec fn variant_problem(owner_name: Seq<char>, vs: Seq<EnumVariant>, i: int) -> Option<
    VariantProblem,
> {
    let v = vs[i];
    match ident_problem(v.rust_name@) {
        Some(message) => Some(VariantProblem::Ident(message)),
        None => if exists|j: int| 0 <= j < i && (#[trigger] vs[j]).rust_name@ == v.rust_name@ {
            Some(VariantProblem::DuplicateRust)
        } else if exists|j: int|
            0 <= j < i && variant_wire_name(#[trigger] vs[j]) == variant_wire_name(v) {
            Some(VariantProblem::DuplicateWire)
        } else if !variant_properties_ok(owner_name, v) {
            Some(VariantProblem::Properties)
        } else {
            None
        },
    }
}

/// `e` is the error reporting `problem` for variant `v`.
pub open spec fn variant_error(e: Error, owner_name: Seq<char>, v: EnumVariant, problem: VariantProblem) -> bool {
    match problem {
        VariantProblem::Ident(message) => e matches Error::InvalidName { kind: k, name: n, message: m }
            && k == "variant" && n@ == v.rust_name@ && m == message,
        VariantProblem::DuplicateRust => e matches Error::DuplicateItemName {
            kind: k,
            owner_name: t,
            name: n,
            axis: NameAxis::Rust,
        } && k == "variant" && t@ == owner_name && n@ == v.rust_name@,
        VariantProblem::DuplicateWire => e matches Error::DuplicateItemName {
            kind: k,
            owner_name: t,
            name: n,
            axis: NameAxis::Wire,
        } && k == "variant" && t@ == owner_name && n@ == variant_wire_name(v),
        VariantProblem::Properties => match v.details {
            VariantDetails::Struct(props) => properties_result(Err(e), variant_scope(owner_name, v), props@),
            _ => false,
        },
    }
}

/// `r` is the outcome of checking the variants of the enum named
/// `owner_name` in order.
pub open spec fn variants_result(r: Result<(), Error>, owner_name: Seq<char>, vs: Seq<EnumVariant>) -> bool {
    match r {
        Ok(()) => forall|i: int| 0 <= i < vs.len() ==> variant_problem(owner_name, vs, i) is None,
        Err(e) => exists|i: int|
            0 <= i < vs.len() && (forall|j: int| 0 <= j < i ==> variant_problem(owner_name, vs, j) is None)
                && #[trigger] variant_problem(owner_name, vs, i) is Some && variant_error(
                e,
                owner_name,
                vs[i],
                variant_problem(owner_name, vs, i)->0,
            ),
    }
}

fn check_variants(owner_name: &str, variants: &Vec<EnumVariant>) -> (r: Result<(), Error>)
    ensures
        variants_result(r, owner_name@, variants@),
{
    let mut i: usize = 0;
    while i < variants.len()
        invariant
            i <= variants@.len(),
            forall|j: int| 0 <= j < i ==> variant_problem(owner_name@, variants@, j) is None,
        decreases variants@.len() - i,
    {
        let variant = &variants[i];
        let checked = validate_ident("variant", variant.rust_name.as_str());
        if let Err(e) = checked {
            proof {
                assert(variant_problem(owner_name@, variants@, i as int) is Some);
            }
            return Err(e);
        }
        let mut j: usize = 0;
        while j < i
            invariant
                j <= i < variants@.len(),
                forall|k: int| 0 <= k < i ==> variant_problem(owner_name@, variants@, k) is None,
                variant == variants@[i as int],
                ident_problem(variant.rust_name@) is None,
                forall|k: int| 0 <= k < j ==> (#[trigger] variants@[k]).rust_name@ != variant.rust_name@,
            decreases i - j,
        {
            if variants[j].rust_name == variant.rust_name {
                proof {
                    assert(variant_problem(owner_name@, variants@, i as int) == Some(VariantProblem::DuplicateRust));
                }
                return Err(
                    Error::DuplicateItemName {
                        kind: "variant",
                        owner_name: owner_name.to_owned(),
                        name: variant.rust_name.clone(),
                        axis: NameAxis::Rust,
                    },
                );
            }
            j = j + 1;
        }
        let wire = variant.json_name();
        let mut j: usize = 0;
        while j < i
            invariant
                j <= i < variants@.len(),
                forall|k: int| 0 <= k < i ==> variant_problem(owner_name@, variants@, k) is None,
                variant == variants@[i as int],
                ident_problem(variant.rust_name@) is None,
                forall|k: int| 0 <= k < i ==> (#[trigger] variants@[k]).rust_name@ != variant.rust_name@,
                wire@ == variant_wire_name(*variant),
                forall|k: int| 0 <= k < j ==> variant_wire_name(#[trigger] variants@[k]) != wire@,
            decreases i - j,
        {
            if str_equal(variants[j].json_name(), wire) {
                proof {
                    assert(variant_problem(owner_name@, variants@, i as int) == Some(VariantProblem::DuplicateWire));
                }
                return Err(
                    Error::DuplicateItemName {
                        kind: "variant",
                        owner_name: owner_name.to_owned(),
                        name: wire.to_owned(),
                        axis: NameAxis::Wire,
                    },
                );
            }
            j = j + 1;
        }
        if let VariantDetails::Struct(properties) = &variant.details {
            let scope = owner_name.to_owned().concat("::").concat(variant.rust_name.as_str());
            let checked = check_properties(scope.as_str(), properties);
            if let Err(e) = checked {
                proof {
                    assert(scope@ == variant_scope(owner_name@, *variant));
                    assert(variant_problem(owner_name@, variants@, i as int) == Some(VariantProblem::Properties));
                }
                return Err(e);
            }
        }
        i = i + 1;
    }
    Ok(())
}

impl Enum {
    /// Start an enum under construction.
    pub fn new() -> (e: Self)
        ensures
            e.common.is_blank(),
            e.tag_type is None,
            e.variants@.len() == 0,
            !e.deny_unknown_fields,
            e.from_str_refusal is None,
    {
        Enum { common: TypeCommon::new(), tag_type: None, variants: Vec::new(), deny_unknown_fields: false, from_str_refusal: None }
    }

    /// Set the serde tagging scheme.
    pub fn tag_type(self, tag_type: EnumTagType) -> (e: Self)
        ensures
            e.tag_type == Some(tag_type),
            e.common == self.common,
            e.variants == self.variants,
            e.deny_unknown_fields == self.deny_unknown_fields,
            e.from_str_refusal == self.from_str_refusal,
    {
        Enum { tag_type: Some(tag_type), ..self }
    }

    /// Append variants.
    pub fn variants(self, variants: Vec<EnumVariant>) -> (e: Self)
        ensures
            e.variants@ == self.variants@ + variants@,
            e.common == self.common,
            e.tag_type == self.tag_type,
            e.deny_unknown_fields == self.deny_unknown_fields,
            e.from_str_refusal == self.from_str_refusal,
    {
        let Enum { common, tag_type, variants: mut all, deny_unknown_fields, from_str_refusal } = self;
        let mut more = variants;
        all.append(&mut more);
        Enum { common, tag_type, variants: all, deny_unknown_fields, from_str_refusal }
    }

    /// Make deserialization reject unknown fields.
    pub fn deny_unknown_fields(self) -> (e: Self)
        ensures
            e.deny_unknown_fields,
            e.common == self.common,
            e.tag_type == self.tag_type,
            e.variants == self.variants,
            e.from_str_refusal == self.from_str_refusal,
    {
        Enum { deny_unknown_fields: true, ..self }
    }

    /// Whether `r` is what the checks `build()` applies give.
    pub open spec fn checked(self, r: Result<(), Error>) -> bool {
        match self.common.name {
            None => r matches Err(Error::MissingTypeName { kind: k }) && k == "enum",
            Some(n) => if ident_problem(n@) is Some {
                ident_result(r, "enum", n@)
            } else if self.tag_type is None {
                r matches Err(Error::MissingTagType { name: m }) && m@ == n@
            } else {
                variants_result(r, n@, self.variants@)
            },
        }
    }

    /// The checks `build()` applies: a valid name, a tag type, and valid,
    /// unique variant names (a struct-shaped variant's fields held to the
    /// property rules).
    pub fn validate(&self) -> (r: Result<(), Error>)
        ensures
            self.checked(r),
    {
        let named = self.common.validate_name("enum");
        if named.is_err() {
            return named;
        }
        let owner_name = self.common.built_name();
        if self.tag_type.is_none() {
            return Err(Error::MissingTagType { name: owner_name.to_owned() });
        }
        check_variants(owner_name, &self.variants)
    }

    /// Apply the checks and wrap the shape as a [`Type`].
    pub fn build(self) -> (r: Result<Type, Error>)
        ensures
            r is Ok <==> Type::Enum(self).spec_valid(),
            match r {
                Ok(t) => t == Type::Enum(self) && self.checked(Ok(())),
                Err(e) => self.checked(Err(e)),
            },
    {
        match self.validate() {
            Ok(()) => Ok(Type::Enum(self)),
            Err(e) => Err(e),
        }
    }

    /// Whether every variant is a unit variant, and the enum is nonempty
    /// and neither untagged nor missing its tag type.
    pub open spec fn spec_all_tagged_unit_variants(self) -> bool {
        &&& self.tag_type is Some
        &&& !(self.tag_type->0 is Untagged)
        &&& self.variants@.len() > 0
        &&& forall|i: int| 0 <= i < self.variants@.len() ==> (#[trigger] self.variants@[i]).details is Unit
    }

    /// Whether the enum is untagged, nonempty, and every variant carries
    /// exactly one payload.
    pub open spec fn spec_all_untagged_item_variants(self) -> bool {
        &&& self.tag_type is Some
        &&& self.tag_type->0 is Untagged
        &&& self.variants@.len() > 0
        &&& forall|i: int| 0 <= i < self.variants@.len() ==> (#[trigger] self.variants@[i]).details is Item
    }

    /// Whether every variant is a unit variant (and the enum is nonempty
    /// and neither untagged nor missing its tag type).
    pub fn all_tagged_unit_variants(&self) -> (b: bool)
        ensures
            b == self.spec_all_tagged_unit_variants(),
    {
        let tagged = match &self.tag_type {
            Some(EnumTagType::Untagged) => false,
            Some(_) => true,
            None => false,
        };
        if !tagged || self.variants.len() == 0 {
            return false;
        }
        let mut i: usize = 0;
        while i < self.variants.len()
            invariant
                i <= self.variants@.len(),
                forall|j: int| 0 <= j < i ==> (#[trigger] self.variants@[j]).details is Unit,
            decreases self.variants@.len() - i,
        {
            if !matches!(self.variants[i].details, VariantDetails::Unit) {
                return false;
            }
            i = i + 1;
        }
        true
    }

    /// Whether the enum is untagged and every variant carries exactly one
    /// payload (and the enum is nonempty).
    pub fn all_untagged_item_variants(&self) -> (b: bool)
        ensures
            b == self.spec_all_untagged_item_variants(),
    {
        let untagged = match &self.tag_type {
            Some(EnumTagType::Untagged) => true,
            _ => false,
        };
        if !untagged || self.variants.len() == 0 {
            return false;
        }
        let mut i: usize = 0;
        while i < self.variants.len()
            invariant
                i <= self.variants@.len(),
                forall|j: int| 0 <= j < i ==> (#[trigger] self.variants@[j]).details is Item,
            decreases self.variants@.len() - i,
        {
            if !matches!(self.variants[i].details, VariantDetails::Item(_)) {
                return false;
            }
            i = i + 1;
        }
        true
    }

    /// The serde tagging scheme, if one has been set.
    pub fn get_tag_type(&self) -> (r: Option<&EnumTagType>)
        ensures
            r is Some <==> self.tag_type is Some,
            r matches Some(t) ==> *t == self.tag_type->0,
    {
        match &self.tag_type {
            Some(t) => Some(t),
            None => None,
        }
    }

    /// The enum's variants, in declaration order.
    pub fn get_variants(&self) -> (r: &[EnumVariant])
        ensures
            r@ == self.variants@,
    {
        self.variants.as_slice()
    }

    /// Whether deserialization rejects unknown fields.
    pub fn get_deny_unknown_fields(&self) -> (b: bool)
        ensures
            b == self.deny_unknown_fields,
    {
        self.deny_unknown_fields
    }
}

impl Enum {
    /// Set the enum's name.
    pub fn name(self, name: &str) -> (v: Self)
        ensures
            v.common.name matches Some(n) && n@ == name@,
            v.common == (TypeCommon { name: v.common.name, ..self.common }),
            v == (Enum { common: v.common, ..self }),
    {
        let Enum { common, tag_type, variants, deny_unknown_fields, from_str_refusal } = self;
        Enum { common: common.with_name(name), tag_type, variants, deny_unknown_fields, from_str_refusal }
    }

    /// Set the description (doc comment source).
    pub fn description(self, description: &str) -> (v: Self)
        ensures
            v.common.description matches Some(d) && d@ == description@,
            v.common == (TypeCommon { description: v.common.description, ..self.common }),
            v == (Enum { common: v.common, ..self }),
    {
        let Enum { common, tag_type, variants, deny_unknown_fields, from_str_refusal } = self;
        Enum { common: common.with_description(description), tag_type, variants, deny_unknown_fields, from_str_refusal }
    }

    /// Set the default value.
    pub fn default(self, default: JsonValue) -> (v: Self)
        ensures
            v.common == (TypeCommon { default: Some(default), ..self.common }),
            v == (Enum { common: v.common, ..self }),
    {
        let Enum { common, tag_type, variants, deny_unknown_fields, from_str_refusal } = self;
        Enum { common: common.with_default(default), tag_type, variants, deny_unknown_fields, from_str_refusal }
    }

    /// Add opaque derive paths applied to this type alone, in addition
    /// to the crate-wide paths the settings name.
    pub fn extra_derives(self, derives: Vec<String>) -> (v: Self)
        ensures
            v.common.extra_derives@ == self.common.extra_derives@ + derives@,
            v.common == (TypeCommon { extra_derives: v.common.extra_derives, ..self.common }),
            v == (Enum { common: v.common, ..self }),
    {
        let Enum { common, tag_type, variants, deny_unknown_fields, from_str_refusal } = self;
        Enum { common: common.with_extra_derives(derives), tag_type, variants, deny_unknown_fields, from_str_refusal }
    }

    /// Add opaque attributes applied to this type alone, in addition to
    /// the crate-wide attributes the settings name.
    pub fn extra_attrs(self, attrs: Vec<String>) -> (v: Self)
        ensures
            v.common.extra_attrs@ == self.common.extra_attrs@ + attrs@,
            v.common == (TypeCommon { extra_attrs: v.common.extra_attrs, ..self.common }),
            v == (Enum { common: v.common, ..self }),
    {
        let Enum { common, tag_type, variants, deny_unknown_fields, from_str_refusal } = self;
        Enum { common: common.with_extra_attrs(attrs), tag_type, variants, deny_unknown_fields, from_str_refusal }
    }

    /// The enum's name, if one has been set.
    pub fn get_name(&self) -> (r: Option<&str>)
        ensures
            r is Some <==> self.common.name is Some,
            r matches Some(n) ==> n@ == self.common.name->0@,
    {
        self.common.name()
    }

    /// The description (doc comment source), if any.
    pub fn get_description(&self) -> (r: Option<&str>)
        ensures
            r is Some <==> self.common.description is Some,
            r matches Some(d) ==> d@ == self.common.description->0@,
    {
        self.common.description()
    }

    /// The default value, if any.
    pub fn get_default(&self) -> (r: Option<&JsonValue>)
        ensures
            r is Some <==> self.common.default is Some,
            r matches Some(d) ==> *d == self.common.default->0,
    {
        self.common.default()
    }

    /// The opaque derive paths applied to this type alone.
    pub fn get_extra_derives(&self) -> (r: &[String])
        ensures
            r@ == self.common.extra_derives@,
    {
        self.common.extra_derives()
    }

    /// The opaque attributes applied to this type alone.
    pub fn get_extra_attrs(&self) -> (r: &[String])
        ensures
            r@ == self.common.extra_attrs@,
    {
        self.common.extra_attrs()
    }
}

} // verus!
