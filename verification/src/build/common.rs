use vstd::prelude::*;
use vstd::string::StrSliceExecFns;

use crate::error::Error;
use crate::json::{str_equal, JsonValue};
use crate::syntax::{
    any_ident_text, parses_as_ident, spec_any_ident_text, spec_parses_as_ident,
};
use crate::traits::TypespaceTraitSet;

verus! {

/// The metadata shared by every named type.
///
/// While a shape is under construction the name may be unset; the shape's
/// `build()` (and, defensively, insertion into the builder) rejects a
/// shape whose name is missing or not a valid identifier.
#[derive(Debug, Clone)]
pub struct TypeCommon {
    pub name: Option<String>,
    pub description: Option<String>,
    pub default: Option<JsonValue>,
    pub extra_derives: Vec<String>,
    pub extra_attrs: Vec<String>,
    pub built: Option<TypeCommonBuilt>,
}

/// What finalization computed for a named type.
#[derive(Debug, Clone)]
pub struct TypeCommonBuilt {
    /// The traits the type's generated code implements.
    pub traits: TypespaceTraitSet,
}

impl TypeCommon {
    /// Nothing is set: no name, description, default value, extra derive
    /// or attribute, and nothing computed yet.
    pub open spec fn is_blank(self) -> bool {
        &&& self.name is None
        &&& self.description is None
        &&& self.default is None
        &&& self.extra_derives@.len() == 0
        &&& self.extra_attrs@.len() == 0
        &&& self.built is None
    }

    /// Metadata with nothing set.
    pub fn new() -> (c: Self)
        ensures
            c.is_blank(),
    {
        TypeCommon {
            name: None,
            description: None,
            default: None,
            extra_derives: Vec::new(),
            extra_attrs: Vec::new(),
            built: None,
        }
    }

    /// The metadata with the name set to `name`.
    pub fn with_name(self, name: &str) -> (c: Self)
        ensures
            c.name matches Some(n) && n@ == name@,
            c == (TypeCommon { name: c.name, ..self }),
    {
        TypeCommon { name: Some(name.to_owned()), ..self }
    }

    /// The metadata with the description set to `description`.
    pub fn with_description(self, description: &str) -> (c: Self)
        ensures
            c.description matches Some(d) && d@ == description@,
            c == (TypeCommon { description: c.description, ..self }),
    {
        TypeCommon { description: Some(description.to_owned()), ..self }
    }

    /// The metadata with the default value set to `default`.
    pub fn with_default(self, default: JsonValue) -> (c: Self)
        ensures
            c == (TypeCommon { default: Some(default), ..self }),
    {
        TypeCommon { default: Some(default), ..self }
    }

    /// The metadata with `derives` added to the extra derive paths.
    pub fn with_extra_derives(self, derives: Vec<String>) -> (c: Self)
        ensures
            c.extra_derives@ == self.extra_derives@ + derives@,
            c == (TypeCommon { extra_derives: c.extra_derives, ..self }),
    {
        let TypeCommon { name, description, default, mut extra_derives, extra_attrs, built } = self;
        let mut more = derives;
        extra_derives.append(&mut more);
        TypeCommon { name, description, default, extra_derives, extra_attrs, built }
    }

    /// The metadata with `attrs` added to the extra attributes.
    pub fn with_extra_attrs(self, attrs: Vec<String>) -> (c: Self)
        ensures
            c.extra_attrs@ == self.extra_attrs@ + attrs@,
            c == (TypeCommon { extra_attrs: c.extra_attrs, ..self }),
    {
        let TypeCommon { name, description, default, extra_derives, mut extra_attrs, built } = self;
        let mut more = attrs;
        extra_attrs.append(&mut more);
        TypeCommon { name, description, default, extra_derives, extra_attrs, built }
    }

    /// The type's name, if one has been set.
    pub fn name(&self) -> (r: Option<&str>)
        ensures
            r is Some <==> self.name is Some,
            r matches Some(n) ==> n@ == self.name->0@,
    {
        match &self.name {
            Some(n) => Some(n.as_str()),
            None => None,
        }
    }

    /// The description (doc comment source), if any.
    pub fn description(&self) -> (r: Option<&str>)
        ensures
            r is Some <==> self.description is Some,
            r matches Some(d) ==> d@ == self.description->0@,
    {
        match &self.description {
            Some(d) => Some(d.as_str()),
            None => None,
        }
    }

    /// The default value, if any.
    pub fn default(&self) -> (r: Option<&JsonValue>)
        ensures
            r is Some <==> self.default is Some,
            r matches Some(d) ==> *d == self.default->0,
    {
        match &self.default {
            Some(d) => Some(d),
            None => None,
        }
    }

    /// Opaque derive paths for this type alone.
    pub fn extra_derives(&self) -> (r: &[String])
        ensures
            r@ == self.extra_derives@,
    {
        self.extra_derives.as_slice()
    }

    /// Opaque attributes for this type alone.
    pub fn extra_attrs(&self) -> (r: &[String])
        ensures
            r@ == self.extra_attrs@,
    {
        self.extra_attrs.as_slice()
    }

    /// The name, or empty text for a shape that has none.
    pub fn name_or_empty(&self) -> (r: &str)
        ensures
            r@ == match self.name {
                Some(n) => n@,
                None => Seq::empty(),
            },
    {
        proof {
            reveal_strlit("");
        }
        match &self.name {
            Some(n) => n.as_str(),
            None => "",
        }
    }

    /// The name of a validated shape.
    pub fn built_name(&self) -> (r: &str)
        requires
            self.name is Some,
        ensures
            r@ == self.name->0@,
    {
        match &self.name {
            Some(n) => n.as_str(),
            None => "",
        }
    }

    /// Check that a nonempty, identifier-safe name is present.
    pub fn validate_name(&self, kind: &'static str) -> (r: Result<(), Error>)
        ensures
            match self.name {
                None => r matches Err(Error::MissingTypeName { kind: k }) && k == kind,
                Some(n) => ident_result(r, kind, n@),
            },
    {
        match &self.name {
            None => Err(Error::MissingTypeName { kind }),
            Some(name) => validate_ident(kind, name.as_str()),
        }
    }
}

/// The message for a name that is a Rust keyword.
pub open spec fn keyword_message() -> &'static str {
    "is a Rust keyword"
}

/// The message for a name that does not lex as an identifier.
pub open spec fn not_ident_message() -> &'static str {
    "is not a valid Rust identifier (raw identifiers are not supported)"
}

/// Whether the text starts with `r#`, the raw identifier prefix.
pub open spec fn starts_raw(name: Seq<char>) -> bool {
    name.len() >= 2 && name[0] == 'r' && name[1] == '#'
}

/// What is wrong with `name` as a plain Rust identifier: `None` when it is
/// one, otherwise the message an error reports.
pub open spec fn ident_problem(name: Seq<char>) -> Option<&'static str> {
    if name == "gen"@ {
        Some(keyword_message())
    } else if !starts_raw(name) && spec_parses_as_ident(name) {
        None
    } else if !starts_raw(name) && spec_any_ident_text(name) == Some(name) {
        Some(keyword_message())
    } else {
        Some(not_ident_message())
    }
}

/// `r` is the outcome of checking `name` as a `kind` name.
pub open spec fn ident_result(r: Result<(), Error>, kind: &'static str, name: Seq<char>) -> bool {
    match ident_problem(name) {
        None => r is Ok,
        Some(message) => r matches Err(Error::InvalidName { kind: k, name: n, message: m })
            && k == kind && n@ == name && m == message,
    }
}

/// Whether the text starts with `r#`.
fn is_raw(name: &str) -> (b: bool)
    ensures
        b == starts_raw(name@),
{
    let len = name.unicode_len();
    if len < 2 {
        return false;
    }
    let first = name.get_char(0);
    let second = name.get_char(1);
    first == 'r' && second == '#'
}

/// Check that `name` is usable as a plain Rust identifier.
///
/// Rejects anything that does not lex as an identifier, keywords (a name
/// that reads as a lone keyword, with nothing around it), raw
/// identifiers, and `gen`. One routine covers type names, property names,
/// and variant names; `kind` labels the error.
pub fn validate_ident(kind: &'static str, name: &str) -> (r: Result<(), Error>)
    ensures
        ident_result(r, kind, name@),
{
    if str_equal(name, "gen") {
        return Err(Error::InvalidName { kind, name: name.to_owned(), message: "is a Rust keyword" });
    }
    let raw = is_raw(name);
    if !raw && parses_as_ident(name) {
        return Ok(());
    }
    if !raw {
        match any_ident_text(name) {
            Some(t) => {
                if str_equal(t.as_str(), name) {
                    return Err(Error::InvalidName { kind, name: name.to_owned(), message: "is a Rust keyword" });
                }
            },
            None => {},
        }
    }
    Err(
        Error::InvalidName {
            kind,
            name: name.to_owned(),
            message: "is not a valid Rust identifier (raw identifiers are not supported)",
        },
    )
}

} // verus!
