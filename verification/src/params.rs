//! The Rust text of a type as a function parameter: what a caller owns
//! cheaply goes by value, the rest is borrowed.
//!
//! A primitive, the unit type, and an enum whose variants are all unit
//! variants go by value; a string is a `&str`; an option and a tuple keep
//! their own syntax and apply the rule to what they hold; every other type
//! is borrowed. A lifetime, when given, is named on every reference the
//! parameter introduces.

use std::collections::BTreeMap;

use vstd::prelude::*;
use vstd::string::StringExecFns;

use crate::build::enums::{Enum, VariantDetails};
use crate::build::Type;
use crate::graph::lemma_u64_key_order;
use crate::render::{ident_rec, ident_text, lemma_ident_fuel, nameable, scope_view, std_spelling};
use crate::settings::{Settings, Std};

verus! {

/// Every variant of `e` is a unit variant.
pub open spec fn unit_only(e: Enum) -> bool {
    forall|i: int| 0 <= i < e.variants@.len() ==> (#[trigger] e.variants@[i]).details is Unit
}

/// A type passed by value: a primitive, the unit type, or an enum of unit
/// variants only.
pub open spec fn by_value(ty: Type) -> bool {
    ||| ty is Boolean
    ||| ty is Integer
    ||| ty is Float
    ||| ty is Unit
    ||| (ty is Enum && unit_only(ty->Enum_0))
}

/// The text a reference introduces before the referenced type: the
/// lifetime and a space, or nothing.
pub open spec fn lifetime_text(lifetime: Option<Seq<char>>) -> Seq<char> {
    match lifetime {
        Some(l) => l + " "@,
        None => Seq::empty(),
    }
}

/// The parameter text of type `id` of `m` within `fuel` levels of nesting,
/// named types qualified by `scope` and references carrying `lifetime`.
pub open spec fn param_text(
    m: Map<u64, Type>,
    s: Settings,
    id: u64,
    scope: Option<Seq<char>>,
    lifetime: Option<Seq<char>>,
    fuel: nat,
) -> Option<Seq<char>>
    decreases fuel, 0nat,
{
    if fuel == 0 || !m.contains_key(id) {
        None
    } else {
        let f = (fuel - 1) as nat;
        match m[id] {
            Type::String => Some("&"@ + lifetime_text(lifetime) + "str"@),
            Type::Option(inner) => match param_text(m, s, inner, scope, lifetime, f) {
                Some(t) => Some(std_spelling(s.std, "::std::option::Option"@, "Option"@) + "<"@ + t + ">"@),
                None => None,
            },
            Type::Tuple(ids) => match params_text(m, s, ids@, scope, lifetime, f) {
                Some(t) => Some("("@ + t + ")"@),
                None => None,
            },
            _ => if by_value(m[id]) {
                ident_text(m, s, id, scope, false, fuel)
            } else {
                match ident_text(m, s, id, scope, false, fuel) {
                    Some(t) => Some("&"@ + lifetime_text(lifetime) + t),
                    None => None,
                }
            },
        }
    }
}

/// The parameter texts of `ids`, separated by `", "`, within `fuel` levels
/// of nesting.
pub open spec fn params_text(
    m: Map<u64, Type>,
    s: Settings,
    ids: Seq<u64>,
    scope: Option<Seq<char>>,
    lifetime: Option<Seq<char>>,
    fuel: nat,
) -> Option<Seq<char>>
    decreases fuel, ids.len(),
{
    if ids.len() == 0 {
        Some(Seq::empty())
    } else {
        match (params_text(m, s, ids.drop_last(), scope, lifetime, fuel), param_text(m, s, ids.last(), scope, lifetime, fuel)) {
            (Some(a), Some(b)) => Some(
                if ids.len() == 1 {
                    b
                } else {
                    a + ", "@ + b
                },
            ),
            _ => None,
        }
    }
}

/// The parameter text of type `id` of `m`.
pub open spec fn parameter_type(
    m: Map<u64, Type>,
    s: Settings,
    id: u64,
    scope: Option<Seq<char>>,
    lifetime: Option<Seq<char>>,
) -> Seq<char> {
    param_text(
        m,
        s,
        id,
        scope,
        lifetime,
        choose|fuel: nat| #[trigger] param_text(m, s, id, scope, lifetime, fuel) is Some,
    )->0
}

/// Whatever can be named can be passed: a type whose text is spelled out
/// within `fuel` levels has a parameter text within as many.
pub proof fn lemma_param_spelled(
    m: Map<u64, Type>,
    s: Settings,
    id: u64,
    scope: Option<Seq<char>>,
    lifetime: Option<Seq<char>>,
    fuel: nat,
)
    requires
        ident_text(m, s, id, scope, false, fuel) is Some,
    ensures
        param_text(m, s, id, scope, lifetime, fuel) is Some,
    decreases fuel, 0nat,
{
    let f = (fuel - 1) as nat;
    match m[id] {
        Type::Option(inner) => {
            lemma_param_spelled(m, s, inner, scope, lifetime, f);
        },
        Type::Tuple(ids) => {
            lemma_params_spelled(m, s, ids@, scope, lifetime, f);
        },
        _ => {},
    }
}

/// [`lemma_param_spelled`] for a list of types.
pub proof fn lemma_params_spelled(
    m: Map<u64, Type>,
    s: Settings,
    ids: Seq<u64>,
    scope: Option<Seq<char>>,
    lifetime: Option<Seq<char>>,
    fuel: nat,
)
    requires
        crate::render::idents_text(m, s, ids, scope, fuel) is Some,
    ensures
        params_text(m, s, ids, scope, lifetime, fuel) is Some,
    decreases fuel, ids.len(),
{
    if ids.len() > 0 {
        lemma_params_spelled(m, s, ids.drop_last(), scope, lifetime, fuel);
        lemma_param_spelled(m, s, ids.last(), scope, lifetime, fuel);
    }
}

/// More fuel changes no parameter text that is already determined.
pub proof fn lemma_param_fuel(
    m: Map<u64, Type>,
    s: Settings,
    id: u64,
    scope: Option<Seq<char>>,
    lifetime: Option<Seq<char>>,
    fuel: nat,
    more: nat,
)
    requires
        param_text(m, s, id, scope, lifetime, fuel) is Some,
        fuel <= more,
    ensures
        param_text(m, s, id, scope, lifetime, more) == param_text(m, s, id, scope, lifetime, fuel),
    decreases fuel, 0nat,
{
    let f = (fuel - 1) as nat;
    let g = (more - 1) as nat;
    match m[id] {
        Type::String => {},
        Type::Option(inner) => lemma_param_fuel(m, s, inner, scope, lifetime, f, g),
        Type::Tuple(ids) => lemma_params_fuel(m, s, ids@, scope, lifetime, f, g),
        _ => lemma_ident_fuel(m, s, id, scope, false, fuel, more),
    }
}

/// More fuel changes no list of parameter texts that is already
/// determined.
pub proof fn lemma_params_fuel(
    m: Map<u64, Type>,
    s: Settings,
    ids: Seq<u64>,
    scope: Option<Seq<char>>,
    lifetime: Option<Seq<char>>,
    fuel: nat,
    more: nat,
)
    requires
        params_text(m, s, ids, scope, lifetime, fuel) is Some,
        fuel <= more,
    ensures
        params_text(m, s, ids, scope, lifetime, more) == params_text(m, s, ids, scope, lifetime, fuel),
    decreases fuel, ids.len(),
{
    if ids.len() > 0 {
        lemma_params_fuel(m, s, ids.drop_last(), scope, lifetime, fuel, more);
        lemma_param_fuel(m, s, ids.last(), scope, lifetime, fuel, more);
    }
}

/// The parameter text of a type is its text at any fuel that determines
/// it.
pub proof fn lemma_parameter_type(
    m: Map<u64, Type>,
    s: Settings,
    id: u64,
    scope: Option<Seq<char>>,
    lifetime: Option<Seq<char>>,
    fuel: nat,
)
    requires
        param_text(m, s, id, scope, lifetime, fuel) is Some,
    ensures
        parameter_type(m, s, id, scope, lifetime) == param_text(m, s, id, scope, lifetime, fuel)->0,
{
    let c = choose|f: nat| #[trigger] param_text(m, s, id, scope, lifetime, f) is Some;
    if c <= fuel {
        lemma_param_fuel(m, s, id, scope, lifetime, c, fuel);
    } else {
        lemma_param_fuel(m, s, id, scope, lifetime, fuel, c);
    }
}

/// Whether every variant of `e` is a unit variant.
fn is_unit_only(e: &Enum) -> (b: bool)
    ensures
        b == unit_only(*e),
{
    let mut i: usize = 0;
    while i < e.variants.len()
        invariant
            i <= e.variants@.len(),
            forall|j: int| 0 <= j < i ==> (#[trigger] e.variants@[j]).details is Unit,
        decreases e.variants@.len() - i,
    {
        if !matches!(e.variants[i].details, VariantDetails::Unit) {
            return false;
        }
        i = i + 1;
    }
    true
}

/// A reference to `target`, carrying `lifetime`.
fn reference_text(lifetime: Option<&str>, target: &str) -> (r: String)
    ensures
        r@ == "&"@ + lifetime_text(scope_view(lifetime)) + target@,
{
    match lifetime {
        Some(l) => "&".to_owned().concat(l).concat(" ").concat(target),
        None => "&".to_owned().concat(target),
    }
}

/// The parameter text of type `id`, as [`param_text`] spells it at `fuel`.
fn param_rec(
    types: &BTreeMap<u64, Type>,
    settings: &Settings,
    id: u64,
    scope: Option<&str>,
    lifetime: Option<&str>,
    Ghost(fuel): Ghost<nat>,
) -> (r: String)
    requires
        param_text(types@, *settings, id, scope_view(scope), scope_view(lifetime), fuel) is Some,
    ensures
        r@ == param_text(types@, *settings, id, scope_view(scope), scope_view(lifetime), fuel)->0,
    decreases fuel, 0nat,
{
    proof {
        lemma_u64_key_order();
    }
    let ghost f: nat = (fuel - 1) as nat;
    let ty = types.get(&id).unwrap();
    match ty {
        Type::String => reference_text(lifetime, "str"),
        Type::Option(inner) => {
            let p = match settings.std {
                Std::FullyQualified => "::std::option::Option",
                Std::Unqualified => "Option",
            };
            let t = param_rec(types, settings, *inner, scope, lifetime, Ghost(f));
            p.to_owned().concat("<").concat(t.as_str()).concat(">")
        },
        Type::Tuple(ids) => {
            proof {
                assert(ids@.take(ids@.len() as int) =~= ids@);
            }
            let t = params_rec(types, settings, ids, ids.len(), scope, lifetime, Ghost(f));
            "(".to_owned().concat(t.as_str()).concat(")")
        },
        _ => {
            let value = match ty {
                Type::Boolean | Type::Integer(_) | Type::Float(_) | Type::Unit => true,
                Type::Enum(e) => is_unit_only(e),
                _ => false,
            };
            let t = ident_rec(types, settings, id, scope, false, Ghost(fuel));
            if value {
                t
            } else {
                reference_text(lifetime, t.as_str())
            }
        },
    }
}

/// The parameter texts of the first `n` of `ids`, as [`params_text`]
/// spells them at `fuel`.
fn params_rec(
    types: &BTreeMap<u64, Type>,
    settings: &Settings,
    ids: &Vec<u64>,
    n: usize,
    scope: Option<&str>,
    lifetime: Option<&str>,
    Ghost(fuel): Ghost<nat>,
) -> (r: String)
    requires
        n <= ids@.len(),
        params_text(types@, *settings, ids@.take(n as int), scope_view(scope), scope_view(lifetime), fuel) is Some,
    ensures
        r@ == params_text(types@, *settings, ids@.take(n as int), scope_view(scope), scope_view(lifetime), fuel)->0,
    decreases fuel, n,
{
    if n == 0 {
        String::new()
    } else {
        proof {
            assert(ids@.take(n as int).drop_last() =~= ids@.take(n - 1));
        }
        let a = params_rec(types, settings, ids, n - 1, scope, lifetime, Ghost(fuel));
        let b = param_rec(types, settings, ids[n - 1], scope, lifetime, Ghost(fuel));
        if n == 1 {
            b
        } else {
            a.concat(", ").concat(b.as_str())
        }
    }
}

/// The parameter text of type `id` of `types`, named types qualified by
/// `scope` and references carrying `lifetime` (written with its
/// apostrophe): what [`parameter_type`] says.
pub fn parameter_type_text(
    types: &BTreeMap<u64, Type>,
    settings: &Settings,
    id: u64,
    scope: Option<&str>,
    lifetime: Option<&str>,
) -> (r: String)
    requires
        nameable(types@, *settings, id, scope_view(scope), false),
    ensures
        r@ == parameter_type(types@, *settings, id, scope_view(scope), scope_view(lifetime)),
{
    proof {
        let fuel = choose|fuel: nat| #[trigger] ident_text(types@, *settings, id, scope_view(scope), false, fuel) is Some;
        lemma_param_spelled(types@, *settings, id, scope_view(scope), scope_view(lifetime), fuel);
    }
    let ghost fuel: nat = choose|fuel: nat|
        #[trigger] param_text(types@, *settings, id, scope_view(scope), scope_view(lifetime), fuel) is Some;
    param_rec(types, settings, id, scope, lifetime, Ghost(fuel))
}

} // verus!
