//! What typespace asks of Rust syntax: whether a name is an identifier,
//! and whether a path parses. The answers come from `syn`.

use vstd::prelude::*;

verus! {

/// Whether `syn` parses the text as a (non-keyword) identifier.
pub uninterp spec fn spec_parses_as_ident(text: Seq<char>) -> bool;

/// The identifier `syn` reads from the text when keywords are allowed
/// too, as text, or `None` when it reads none.
pub uninterp spec fn spec_any_ident_text(text: Seq<char>) -> Option<Seq<char>>;

/// The message `syn` gives when the text does not parse as a Rust type,
/// or `None` when it does.
pub uninterp spec fn spec_type_parse_error(text: Seq<char>) -> Option<Seq<char>>;

/// Whether `syn` parses the text as a Rust type.
pub open spec fn spec_parses_as_type(text: Seq<char>) -> bool {
    spec_type_parse_error(text) is None
}

/// Whether `syn` parses the text as a path of `::`-separated segments with
/// no generic arguments.
pub uninterp spec fn spec_parses_as_plain_path(text: Seq<char>) -> bool;

/// The message `syn` gives when the text does not parse as a path, or
/// `None` when it does.
pub uninterp spec fn spec_path_parse_error(text: Seq<char>) -> Option<Seq<char>>;

/// Calls `syn::parse_str::<syn::Ident>`; the contract claims only that
/// the answer is a function of the text.
#[verifier::external_body]
pub(crate) fn parses_as_ident(text: &str) -> (r: bool)
    ensures
        r == spec_parses_as_ident(text@),
{
    syn::parse_str::<syn::Ident>(text).is_ok()
}

/// Calls `syn::ext::IdentExt::parse_any` through `syn::parse::Parser`,
/// which accepts keywords as identifiers, and renders the identifier it
/// reads with `to_string`; the contract claims only that the outcome is
/// a function of the text.
#[verifier::external_body]
pub(crate) fn any_ident_text(text: &str) -> (r: Option<String>)
    ensures
        match r {
            None => spec_any_ident_text(text@) is None,
            Some(t) => spec_any_ident_text(text@) == Some(t@),
        },
{
    syn::parse::Parser::parse_str(<syn::Ident as syn::ext::IdentExt>::parse_any, text).ok().map(|i| i.to_string())
}

/// Calls `syn::parse_str::<syn::Type>` and renders its error, if any, with
/// `to_string`; the contract claims only that the outcome is a function of
/// the text.
#[verifier::external_body]
pub(crate) fn type_parse_error(text: &str) -> (r: Option<String>)
    ensures
        match r {
            None => spec_type_parse_error(text@) is None,
            Some(message) => spec_type_parse_error(text@) == Some(message@),
        },
{
    match syn::parse_str::<syn::Type>(text) {
        Ok(_) => None,
        Err(err) => Some(err.to_string()),
    }
}

/// Whether `syn` parses the text as a Rust type.
pub(crate) fn parses_as_type(text: &str) -> (r: bool)
    ensures
        r == spec_parses_as_type(text@),
{
    type_parse_error(text).is_none()
}

/// The text as `Debug` writes a string: in double quotes, with quotes,
/// backslashes, and control characters escaped.
pub uninterp spec fn spec_quoted(text: Seq<char>) -> Seq<char>;

/// Calls std's `Debug` formatting of a string through `format!`; the
/// contract claims only that the result is a function of the text.
#[verifier::external_body]
pub(crate) fn quoted(text: &str) -> (r: String)
    ensures
        r@ == spec_quoted(text@),
{
    format!("{text:?}")
}

/// Calls `syn::Path::parse_mod_style` through `syn::parse::Parser`, which
/// accepts a path only when no segment carries generic arguments; the
/// contract claims only that the answer is a function of the text.
#[verifier::external_body]
pub(crate) fn parses_as_plain_path(text: &str) -> (r: bool)
    ensures
        r == spec_parses_as_plain_path(text@),
{
    syn::parse::Parser::parse_str(syn::Path::parse_mod_style, text).is_ok()
}

/// Calls `syn::parse_str::<syn::Path>` and renders its error, if any, with
/// `to_string`; the contract claims only that the outcome is a function of
/// the text.
#[verifier::external_body]
pub(crate) fn path_parse_error(text: &str) -> (r: Option<String>)
    ensures
        match r {
            None => spec_path_parse_error(text@) is None,
            Some(message) => spec_path_parse_error(text@) == Some(message@),
        },
{
    match syn::parse_str::<syn::Path>(text) {
        Ok(_) => None,
        Err(err) => Some(err.to_string()),
    }
}

} // verus!
