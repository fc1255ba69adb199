use vstd::prelude::*;

use crate::build::Type;

use crate::build::common::{ident_result, TypeCommon};
use crate::error::Error;

verus! {

/// A type alias (`pub type Name = Target;`).
///
/// An alias introduces no value of its own, so it carries no default
/// value.
#[derive(Debug, Clone)]
pub struct TypeAlias {
    pub common: TypeCommon,
    pub target: u64,
}

impl TypeAlias {
    /// Start a type alias for the type `target`.
    pub fn new(target: u64) -> (a: Self)
        ensures
            a.common.is_blank(),
            a.target == target,
    {
        TypeAlias { common: TypeCommon::new(), target }
    }

    /// Whether `r` is what the checks `build()` applies give.
    pub open spec fn checked(self, r: Result<(), Error>) -> bool {
        match self.common.name {
            None => r matches Err(Error::MissingTypeName { kind: k }) && k == "type alias",
            Some(n) => ident_result(r, "type alias", n@),
        }
    }

    /// The checks `build()` applies: a valid name.
    pub fn validate(&self) -> (r: Result<(), Error>)
        ensures
            self.checked(r),
    {
        self.common.validate_name("type alias")
    }

    /// Apply the checks and wrap the shape as a [`Type`].
    pub fn build(self) -> (r: Result<Type, Error>)
        ensures
            r is Ok <==> Type::TypeAlias(self).spec_valid(),
            match r {
                Ok(t) => t == Type::TypeAlias(self) && self.checked(Ok(())),
                Err(e) => self.checked(Err(e)),
            },
    {
        match self.validate() {
            Ok(()) => Ok(Type::TypeAlias(self)),
            Err(e) => Err(e),
        }
    }

    /// The ID of the aliased type.
    pub fn get_target(&self) -> (r: u64)
        ensures
            r == self.target,
    {
        self.target
    }
}

impl TypeAlias {
    /// Set the type alias's name.
    pub fn name(self, name: &str) -> (v: Self)
        ensures
            v.common.name matches Some(n) && n@ == name@,
            v.common == (TypeCommon { name: v.common.name, ..self.common }),
            v == (TypeAlias { common: v.common, ..self }),
    {
        let TypeAlias { common, target } = self;
        TypeAlias { common: common.with_name(name), target }
    }

    /// Set the description (doc comment source).
    pub fn description(self, description: &str) -> (v: Self)
        ensures
            v.common.description matches Some(d) && d@ == description@,
            v.common == (TypeCommon { description: v.common.description, ..self.common }),
            v == (TypeAlias { common: v.common, ..self }),
    {
        let TypeAlias { common, target } = self;
        TypeAlias { common: common.with_description(description), target }
    }

    /// Add opaque attributes applied to this type alone, in addition to
    /// the crate-wide attributes the settings name.
    pub fn extra_attrs(self, attrs: Vec<String>) -> (v: Self)
        ensures
            v.common.extra_attrs@ == self.common.extra_attrs@ + attrs@,
            v.common == (TypeCommon { extra_attrs: v.common.extra_attrs, ..self.common }),
            v == (TypeAlias { common: v.common, ..self }),
    {
        let TypeAlias { common, target } = self;
        TypeAlias { common: common.with_extra_attrs(attrs), target }
    }

    /// The type alias's name, if one has been set.
    pub fn get_name(&self) -> (r: Option<&str>)
        ensures
            r is Some <==> self.common.name is Some,
            r matches Some(n) ==> n@ == self.common.name->0@,
    {
        self.common.name()
    }

    /// The description (doc comment source), if any.
    pub fn get_description(&self) -> (r: Option<&str>)
        ensures
            r is Some <==> self.common.description is Some,
            r matches Some(d) ==> d@ == self.common.description->0@,
    {
        self.common.description()
    }

    /// The opaque attributes applied to this type alone.
    pub fn get_extra_attrs(&self) -> (r: &[String])
        ensures
            r@ == self.common.extra_attrs@,
    {
        self.common.extra_attrs()
    }
}

} // verus!
