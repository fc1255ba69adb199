//! Rust source text for the things generated code names: a type's
//! identifier as it is spelled where the type is used, and the derive
//! attribute of a named type.
//!
//! The text is compact Rust: parsing it as a token stream gives the tokens
//! the generated code carries.

use std::collections::BTreeMap;

use vstd::prelude::*;
use vstd::string::StringExecFns;

use crate::build::Type;
use crate::finalize::{decimal, decimal_text};
use crate::graph::{anon_acyclic, anon_edge, anon_ranked, closed, lemma_u64_key_order};
use crate::syntax::{quoted, spec_quoted};
use crate::settings::{ContainerType, Settings, Std};
use crate::traits::{trait_at, trait_at_index, trait_text, TypespaceTrait, TypespaceTraitSet};

verus! {

/// `qualified` under fully qualified `std` syntax, `short` otherwise.
pub open spec fn std_spelling(std: Std, qualified: Seq<char>, short: Seq<char>) -> Seq<char> {
    match std {
        Std::FullyQualified => qualified,
        Std::Unqualified => short,
    }
}

/// The spelling of container `c` under `std` syntax: its prelude shortcut
/// when prelude types are unqualified and it has one, its path otherwise.
pub open spec fn container_text(c: ContainerType, std: Std) -> Seq<char> {
    match (std, c.prelude_of()) {
        (Std::Unqualified, Some(p)) => p,
        _ => c.path_of(),
    }
}

/// A scope, taken by its text.
pub open spec fn scope_view(scope: Option<&str>) -> Option<Seq<char>> {
    match scope {
        Some(s) => Some(s@),
        None => None,
    }
}

/// `name`, qualified by the module `scope` when there is one.
pub open spec fn scoped(scope: Option<Seq<char>>, name: Seq<char>) -> Seq<char> {
    match scope {
        Some(s) => s + "::"@ + name,
        None => name,
    }
}

/// `path`, followed by `inner` as its one generic argument unless `base`
/// leaves generic arguments off.
pub open spec fn with_argument(path: Seq<char>, inner: Option<Seq<char>>, base: bool) -> Option<Seq<char>> {
    if base {
        Some(path)
    } else {
        match inner {
            Some(t) => Some(path + "<"@ + t + ">"@),
            None => None,
        }
    }
}

/// The path a map of `m` renders as: `::serde_json::Map` for a map from
/// strings to JSON values (the map inside `::serde_json::Value` itself),
/// the configured map type otherwise.
pub open spec fn map_path(m: Map<u64, Type>, s: Settings, key: u64, value: u64) -> Seq<char> {
    if m[key] is String && m[value] is JsonValue {
        "::serde_json::Map"@
    } else {
        container_text(s.map_type, s.std)
    }
}

/// The Rust text naming type `id` of `m` where it is used, within `fuel`
/// levels of nesting: a named type by its name (qualified by `scope`),
/// any other type spelled out from the types it holds. `base` leaves off
/// the generic arguments of a container, an option, a box or a native,
/// as the path to one of its variants or associated functions is spelled.
/// `None` when `id` or a type it spells out is missing, or the nesting is
/// deeper than `fuel`.
pub open spec fn ident_text(
    m: Map<u64, Type>,
    s: Settings,
    id: u64,
    scope: Option<Seq<char>>,
    base: bool,
    fuel: nat,
) -> Option<Seq<char>>
    decreases fuel, 0nat,
{
    if fuel == 0 || !m.contains_key(id) {
        None
    } else {
        let f = (fuel - 1) as nat;
        match m[id] {
            Type::Native(n) => {
                if !base && n.parameters@.len() > 0 {
                    match idents_text(m, s, n.parameters@, scope, f) {
                        Some(ps) => Some(n.path_of() + "<"@ + ps + ">"@),
                        None => None,
                    }
                } else {
                    Some(n.path_of())
                }
            },
            Type::Array(inner, len) => match ident_text(m, s, inner, scope, false, f) {
                Some(t) => Some("["@ + t + "; "@ + decimal(len as nat) + "usize]"@),
                None => None,
            },
            Type::Tuple(ids) => match idents_text(m, s, ids@, scope, f) {
                Some(t) => Some("("@ + t + ")"@),
                None => None,
            },
            Type::Option(inner) => with_argument(
                std_spelling(s.std, "::std::option::Option"@, "Option"@),
                ident_text(m, s, inner, scope, false, f),
                base,
            ),
            Type::Box(inner) => with_argument(
                std_spelling(s.std, "::std::boxed::Box"@, "Box"@),
                ident_text(m, s, inner, scope, false, f),
                base,
            ),
            Type::SetOf(inner) => with_argument(
                container_text(s.set_type, s.std),
                ident_text(m, s, inner, scope, false, f),
                base,
            ),
            Type::Vec(inner) => with_argument(
                container_text(s.vec_type, s.std),
                ident_text(m, s, inner, scope, false, f),
                base,
            ),
            Type::MapOf(k, v) => {
                if !m.contains_key(k) || !m.contains_key(v) {
                    None
                } else if base {
                    Some(map_path(m, s, k, v))
                } else {
                    match (ident_text(m, s, k, scope, false, f), ident_text(m, s, v, scope, false, f)) {
                        (Some(a), Some(b)) => Some(map_path(m, s, k, v) + "<"@ + a + ", "@ + b + ">"@),
                        _ => None,
                    }
                }
            },
            Type::Boolean => Some("bool"@),
            Type::Integer(n) => Some(n@),
            Type::Float(n) => Some(n@),
            Type::String => Some(std_spelling(s.std, "::std::string::String"@, "String"@)),
            Type::JsonValue => Some("::serde_json::Value"@),
            Type::Never => Some("::json_serde::Absent"@),
            Type::Unit => Some("()"@),
            _ => match m[id].common_of() {
                Some(c) => match c.name {
                    Some(name) => Some(scoped(scope, name@)),
                    None => None,
                },
                None => None,
            },
        }
    }
}

/// The texts of the types `ids` of `m`, separated by `", "`, within `fuel`
/// levels of nesting.
pub open spec fn idents_text(
    m: Map<u64, Type>,
    s: Settings,
    ids: Seq<u64>,
    scope: Option<Seq<char>>,
    fuel: nat,
) -> Option<Seq<char>>
    decreases fuel, ids.len(),
{
    if ids.len() == 0 {
        Some(Seq::empty())
    } else {
        match (idents_text(m, s, ids.drop_last(), scope, fuel), ident_text(m, s, ids.last(), scope, false, fuel)) {
            (Some(a), Some(b)) => Some(
                if ids.len() == 1 {
                    b
                } else {
                    a + ", "@ + b
                },
            ),
            _ => None,
        }
    }
}

/// Type `id` of `m` can be named: the nesting of the types its text spells
/// out ends, and each of them is present.
pub open spec fn nameable(m: Map<u64, Type>, s: Settings, id: u64, scope: Option<Seq<char>>, base: bool) -> bool {
    exists|fuel: nat| #[trigger] ident_text(m, s, id, scope, base, fuel) is Some
}

/// The text naming type `id` of `m` where it is used.
pub open spec fn type_ident(m: Map<u64, Type>, s: Settings, id: u64, scope: Option<Seq<char>>, base: bool) -> Seq<char> {
    ident_text(m, s, id, scope, base, choose|fuel: nat| #[trigger] ident_text(m, s, id, scope, base, fuel) is Some)->0
}

/// Every named type of `m` has a name.
pub open spec fn names_present(m: Map<u64, Type>) -> bool {
    forall|t: u64| #[trigger] m.contains_key(t) && m[t].spec_is_named() ==> m[t].common_of()->0.name is Some
}

/// The rank of `t`, or zero for a type without one.
pub open spec fn rank_at(rank: Map<u64, nat>, t: u64) -> nat {
    if rank.contains_key(t) {
        rank[t]
    } else {
        0
    }
}

/// A list of types each nameable within `fuel` is nameable within it.
proof fn lemma_idents_settle(m: Map<u64, Type>, s: Settings, ids: Seq<u64>, scope: Option<Seq<char>>, fuel: nat)
    requires
        forall|i: int| 0 <= i < ids.len() ==> ident_text(m, s, #[trigger] ids[i], scope, false, fuel) is Some,
    ensures
        idents_text(m, s, ids, scope, fuel) is Some,
    decreases ids.len(),
{
    if ids.len() > 0 {
        assert forall|i: int| 0 <= i < ids.drop_last().len() implies ident_text(m, s, #[trigger] ids.drop_last()[i], scope, false, fuel) is Some by {
            assert(ids.drop_last()[i] == ids[i]);
        }
        lemma_idents_settle(m, s, ids.drop_last(), scope, fuel);
        assert(ident_text(m, s, ids[ids.len() - 1], scope, false, fuel) is Some);
    }
}

/// In a graph whose references resolve, whose named types have names,
/// and whose anonymous types rank below the anonymous types holding them,
/// type `id` is named within its rank plus two levels of nesting.
proof fn lemma_ident_settles(m: Map<u64, Type>, s: Settings, rank: Map<u64, nat>, id: u64, scope: Option<Seq<char>>, base: bool)
    requires
        closed(m),
        anon_ranked(m, rank),
        names_present(m),
        m.contains_key(id),
    ensures
        ident_text(m, s, id, scope, base, rank_at(rank, id) + 2) is Some,
    decreases rank_at(rank, id),
{
    let f: nat = rank_at(rank, id) + 1;
    if m[id].spec_is_named() {
        assert(m[id].common_of()->0.name is Some);
    } else {
        assert forall|c: u64| #[trigger] m[id].spec_children().contains(c) implies ident_text(m, s, c, scope, false, f) is Some by {
            assert(m.contains_key(c));
            if m[c].spec_is_named() {
                assert(m[c].common_of()->0.name is Some);
                assert(ident_text(m, s, c, scope, false, 1) is Some);
                lemma_ident_fuel(m, s, c, scope, false, 1, f);
            } else {
                assert(anon_edge(m, id, c));
                lemma_ident_settles(m, s, rank, c, scope, false);
                lemma_ident_fuel(m, s, c, scope, false, rank_at(rank, c) + 2, f);
            }
        }
        match m[id] {
            Type::Native(n) => {
                assert forall|i: int| 0 <= i < n.parameters@.len() implies ident_text(m, s, #[trigger] n.parameters@[i], scope, false, f) is Some by {
                    assert(m[id].spec_children().contains(n.parameters@[i]));
                }
                lemma_idents_settle(m, s, n.parameters@, scope, f);
            },
            Type::Tuple(ids) => {
                assert forall|i: int| 0 <= i < ids@.len() implies ident_text(m, s, #[trigger] ids@[i], scope, false, f) is Some by {
                    assert(m[id].spec_children().contains(ids@[i]));
                }
                lemma_idents_settle(m, s, ids@, scope, f);
            },
            Type::Array(inner, _) | Type::Option(inner) | Type::Box(inner) | Type::SetOf(inner) | Type::Vec(inner) => {
                assert(m[id].spec_children()[0] == inner);
                assert(m[id].spec_children().contains(inner));
                assert(ident_text(m, s, inner, scope, false, f) is Some);
            },
            Type::MapOf(k, v) => {
                assert(m[id].spec_children()[0] == k);
                assert(m[id].spec_children()[1] == v);
                assert(m[id].spec_children().contains(k));
                assert(m[id].spec_children().contains(v));
                assert(ident_text(m, s, k, scope, false, f) is Some);
                assert(ident_text(m, s, v, scope, false, f) is Some);
            },
            _ => {},
        }
        assert(ident_text(m, s, id, scope, base, f + 1) is Some);
    }
}

/// Every type of a graph whose references resolve, whose named types
/// have names, and which has no cycle through anonymous types only, can
/// be named.
pub proof fn lemma_nameable(m: Map<u64, Type>, s: Settings, id: u64, scope: Option<Seq<char>>, base: bool)
    requires
        closed(m),
        anon_acyclic(m),
        names_present(m),
        m.contains_key(id),
    ensures
        nameable(m, s, id, scope, base),
{
    let rank = choose|rank: Map<u64, nat>| anon_ranked(m, rank);
    lemma_ident_settles(m, s, rank, id, scope, base);
}

/// More fuel changes no text that is already determined.
pub proof fn lemma_ident_fuel(
    m: Map<u64, Type>,
    s: Settings,
    id: u64,
    scope: Option<Seq<char>>,
    base: bool,
    fuel: nat,
    more: nat,
)
    requires
        ident_text(m, s, id, scope, base, fuel) is Some,
        fuel <= more,
    ensures
        ident_text(m, s, id, scope, base, more) == ident_text(m, s, id, scope, base, fuel),
    decreases fuel, 0nat,
{
    let f = (fuel - 1) as nat;
    let g = (more - 1) as nat;
    match m[id] {
        Type::Native(n) => {
            if !base && n.parameters@.len() > 0 {
                lemma_idents_fuel(m, s, n.parameters@, scope, f, g);
            }
        },
        Type::Array(inner, _) => lemma_ident_fuel(m, s, inner, scope, false, f, g),
        Type::Tuple(ids) => lemma_idents_fuel(m, s, ids@, scope, f, g),
        Type::Option(inner) | Type::Box(inner) | Type::SetOf(inner) | Type::Vec(inner) => {
            if !base {
                lemma_ident_fuel(m, s, inner, scope, false, f, g);
            }
        },
        Type::MapOf(k, v) => {
            if !base {
                lemma_ident_fuel(m, s, k, scope, false, f, g);
                lemma_ident_fuel(m, s, v, scope, false, f, g);
            }
        },
        _ => {},
    }
}

/// More fuel changes no list text that is already determined.
pub proof fn lemma_idents_fuel(
    m: Map<u64, Type>,
    s: Settings,
    ids: Seq<u64>,
    scope: Option<Seq<char>>,
    fuel: nat,
    more: nat,
)
    requires
        idents_text(m, s, ids, scope, fuel) is Some,
        fuel <= more,
    ensures
        idents_text(m, s, ids, scope, more) == idents_text(m, s, ids, scope, fuel),
    decreases fuel, ids.len(),
{
    if ids.len() > 0 {
        lemma_idents_fuel(m, s, ids.drop_last(), scope, fuel, more);
        lemma_ident_fuel(m, s, ids.last(), scope, false, fuel, more);
    }
}

/// The text of a nameable type is the text at any fuel that determines it.
pub proof fn lemma_type_ident(m: Map<u64, Type>, s: Settings, id: u64, scope: Option<Seq<char>>, base: bool, fuel: nat)
    requires
        ident_text(m, s, id, scope, base, fuel) is Some,
    ensures
        nameable(m, s, id, scope, base),
        type_ident(m, s, id, scope, base) == ident_text(m, s, id, scope, base, fuel)->0,
{
    let c = choose|f: nat| #[trigger] ident_text(m, s, id, scope, base, f) is Some;
    if c <= fuel {
        lemma_ident_fuel(m, s, id, scope, base, c, fuel);
    } else {
        lemma_ident_fuel(m, s, id, scope, base, fuel, c);
    }
}

/// Containers are named by the container the settings configure for
/// them, around the names of what they hold: a set by the set type, a
/// vec by the vec type, a map by the map type (or `::serde_json::Map` for
/// strings to JSON values) around its key and value, an option and a box
/// by std's, an array by its element and length.
pub proof fn law_container_ident(m: Map<u64, Type>, s: Settings, id: u64, scope: Option<Seq<char>>)
    requires
        nameable(m, s, id, scope, false),
    ensures
        m[id] matches Type::SetOf(e) ==> nameable(m, s, e, scope, false) && type_ident(m, s, id, scope, false)
            == container_text(s.set_type, s.std) + "<"@ + type_ident(m, s, e, scope, false) + ">"@,
        m[id] matches Type::Vec(e) ==> nameable(m, s, e, scope, false) && type_ident(m, s, id, scope, false)
            == container_text(s.vec_type, s.std) + "<"@ + type_ident(m, s, e, scope, false) + ">"@,
        m[id] matches Type::Option(e) ==> nameable(m, s, e, scope, false) && type_ident(m, s, id, scope, false)
            == std_spelling(s.std, "::std::option::Option"@, "Option"@) + "<"@ + type_ident(m, s, e, scope, false) + ">"@,
        m[id] matches Type::Box(e) ==> nameable(m, s, e, scope, false) && type_ident(m, s, id, scope, false)
            == std_spelling(s.std, "::std::boxed::Box"@, "Box"@) + "<"@ + type_ident(m, s, e, scope, false) + ">"@,
        m[id] matches Type::MapOf(k, v) ==> nameable(m, s, k, scope, false) && nameable(m, s, v, scope, false)
            && type_ident(m, s, id, scope, false) == map_path(m, s, k, v) + "<"@ + type_ident(m, s, k, scope, false) + ", "@
            + type_ident(m, s, v, scope, false) + ">"@,
        m[id] matches Type::Array(e, len) ==> nameable(m, s, e, scope, false) && type_ident(m, s, id, scope, false) == "["@
            + type_ident(m, s, e, scope, false) + "; "@ + decimal(len as nat) + "usize]"@,
{
    let fuel = choose|fuel: nat| #[trigger] ident_text(m, s, id, scope, false, fuel) is Some;
    lemma_type_ident(m, s, id, scope, false, fuel);
    let f = (fuel - 1) as nat;
    match m[id] {
        Type::SetOf(e) => lemma_type_ident(m, s, e, scope, false, f),
        Type::Vec(e) => lemma_type_ident(m, s, e, scope, false, f),
        Type::Option(e) => lemma_type_ident(m, s, e, scope, false, f),
        Type::Box(e) => lemma_type_ident(m, s, e, scope, false, f),
        Type::Array(e, _) => lemma_type_ident(m, s, e, scope, false, f),
        Type::MapOf(k, v) => {
            lemma_type_ident(m, s, k, scope, false, f);
            lemma_type_ident(m, s, v, scope, false, f);
        },
        _ => {},
    }
}

/// The names of `ids`, each where it is used.
pub open spec fn ident_list(m: Map<u64, Type>, s: Settings, ids: Seq<u64>, scope: Option<Seq<char>>) -> Seq<Seq<char>> {
    ids.map_values(|i: u64| type_ident(m, s, i, scope, false))
}

/// A list of names spelled out at some fuel is the names of its types,
/// separated by commas.
proof fn lemma_idents_list(m: Map<u64, Type>, s: Settings, ids: Seq<u64>, scope: Option<Seq<char>>, fuel: nat)
    requires
        idents_text(m, s, ids, scope, fuel) is Some,
    ensures
        idents_text(m, s, ids, scope, fuel) == Some(comma_list(ident_list(m, s, ids, scope))),
        forall|i: int| 0 <= i < ids.len() ==> nameable(m, s, #[trigger] ids[i], scope, false),
    decreases ids.len(),
{
    if ids.len() > 0 {
        lemma_idents_list(m, s, ids.drop_last(), scope, fuel);
        lemma_type_ident(m, s, ids.last(), scope, false, fuel);
        assert(ident_list(m, s, ids.drop_last(), scope) =~= ident_list(m, s, ids, scope).drop_last());
        assert forall|i: int| 0 <= i < ids.len() implies nameable(m, s, #[trigger] ids[i], scope, false) by {
            if i < ids.len() - 1 {
                assert(ids.drop_last()[i] == ids[i]);
            }
        }
    }
}

/// The types that hold no others are named by their own spelling, a
/// named type by its name (qualified by `scope`), and a tuple by the
/// names of its elements, separated by commas, in parentheses.
pub proof fn law_leaf_ident(m: Map<u64, Type>, s: Settings, id: u64, scope: Option<Seq<char>>)
    requires
        nameable(m, s, id, scope, false),
    ensures
        m[id] is Boolean ==> type_ident(m, s, id, scope, false) == "bool"@,
        m[id] matches Type::Integer(n) ==> type_ident(m, s, id, scope, false) == n@,
        m[id] matches Type::Float(n) ==> type_ident(m, s, id, scope, false) == n@,
        m[id] is String ==> type_ident(m, s, id, scope, false) == std_spelling(s.std, "::std::string::String"@, "String"@),
        m[id] is Unit ==> type_ident(m, s, id, scope, false) == "()"@,
        m[id] is JsonValue ==> type_ident(m, s, id, scope, false) == "::serde_json::Value"@,
        m[id].spec_is_named() && !(m[id] is Native) ==> m[id].common_of()->0.name is Some
            && type_ident(m, s, id, scope, false) == scoped(scope, m[id].common_of()->0.name->0@),
        m[id] matches Type::Tuple(ids) ==> (forall|i: int| 0 <= i < ids@.len() ==> nameable(m, s, #[trigger] ids@[i], scope, false))
            && type_ident(m, s, id, scope, false) == "("@ + comma_list(ident_list(m, s, ids@, scope)) + ")"@,
{
    let fuel = choose|fuel: nat| #[trigger] ident_text(m, s, id, scope, false, fuel) is Some;
    lemma_type_ident(m, s, id, scope, false, fuel);
    if let Type::Tuple(ids) = m[id] {
        lemma_idents_list(m, s, ids@, scope, (fuel - 1) as nat);
    }
}

fn with_argument_text(path: &str, inner: String) -> (r: String)
    ensures
        r@ == path@ + "<"@ + inner@ + ">"@,
{
    path.to_owned().concat("<").concat(inner.as_str()).concat(">")
}

/// The text of type `id`, as [`ident_text`] spells it at `fuel`.
pub(crate) fn ident_rec(
    types: &BTreeMap<u64, Type>,
    settings: &Settings,
    id: u64,
    scope: Option<&str>,
    base: bool,
    Ghost(fuel): Ghost<nat>,
) -> (r: String)
    requires
        ident_text(types@, *settings, id, scope_view(scope), base, fuel) is Some,
    ensures
        r@ == ident_text(types@, *settings, id, scope_view(scope), base, fuel)->0,
    decreases fuel, 0nat,
{
    proof {
        lemma_u64_key_order();
    }
    let ghost f: nat = (fuel - 1) as nat;
    let ty = types.get(&id).unwrap();
    match ty {
        Type::Native(n) => {
            if !base && n.parameters.len() > 0 {
                proof {
                    assert(n.parameters@.take(n.parameters@.len() as int) =~= n.parameters@);
                }
                let ps = idents_rec(types, settings, &n.parameters, n.parameters.len(), scope, Ghost(f));
                with_argument_text(n.path(), ps)
            } else {
                n.path().to_owned()
            }
        },
        Type::Array(inner, len) => {
            let t = ident_rec(types, settings, *inner, scope, false, Ghost(f));
            "[".to_owned().concat(t.as_str()).concat("; ").concat(decimal_text(*len).as_str()).concat("usize]")
        },
        Type::Tuple(ids) => {
            proof {
                assert(ids@.take(ids@.len() as int) =~= ids@);
            }
            let t = idents_rec(types, settings, ids, ids.len(), scope, Ghost(f));
            "(".to_owned().concat(t.as_str()).concat(")")
        },
        Type::Option(inner) => {
            let p = match settings.std {
                Std::FullyQualified => "::std::option::Option",
                Std::Unqualified => "Option",
            };
            if base {
                p.to_owned()
            } else {
                with_argument_text(p, ident_rec(types, settings, *inner, scope, false, Ghost(f)))
            }
        },
        Type::Box(inner) => {
            let p = match settings.std {
                Std::FullyQualified => "::std::boxed::Box",
                Std::Unqualified => "Box",
            };
            if base {
                p.to_owned()
            } else {
                with_argument_text(p, ident_rec(types, settings, *inner, scope, false, Ghost(f)))
            }
        },
        Type::SetOf(inner) => {
            let p = settings.set_type.rendered_path(&settings.std);
            if base {
                p.to_owned()
            } else {
                with_argument_text(p, ident_rec(types, settings, *inner, scope, false, Ghost(f)))
            }
        },
        Type::Vec(inner) => {
            let p = settings.vec_type.rendered_path(&settings.std);
            if base {
                p.to_owned()
            } else {
                with_argument_text(p, ident_rec(types, settings, *inner, scope, false, Ghost(f)))
            }
        },
        Type::MapOf(k, v) => {
            let key_ty = types.get(k).unwrap();
            let value_ty = types.get(v).unwrap();
            let p = if matches!(key_ty, Type::String) && matches!(value_ty, Type::JsonValue) {
                "::serde_json::Map"
            } else {
                settings.map_type.rendered_path(&settings.std)
            };
            if base {
                p.to_owned()
            } else {
                let a = ident_rec(types, settings, *k, scope, false, Ghost(f));
                let b = ident_rec(types, settings, *v, scope, false, Ghost(f));
                p.to_owned().concat("<").concat(a.as_str()).concat(", ").concat(b.as_str()).concat(">")
            }
        },
        Type::Boolean => "bool".to_owned(),
        Type::Integer(n) => n.clone(),
        Type::Float(n) => n.clone(),
        Type::String => match settings.std {
            Std::FullyQualified => "::std::string::String".to_owned(),
            Std::Unqualified => "String".to_owned(),
        },
        Type::JsonValue => "::serde_json::Value".to_owned(),
        Type::Never => "::json_serde::Absent".to_owned(),
        Type::Unit => "()".to_owned(),
        _ => {
            let name = ty.name().unwrap();
            match scope {
                Some(sc) => sc.to_owned().concat("::").concat(name),
                None => name.to_owned(),
            }
        },
    }
}

/// The texts of the first `n` of `ids`, as [`idents_text`] spells them at
/// `fuel`.
fn idents_rec(
    types: &BTreeMap<u64, Type>,
    settings: &Settings,
    ids: &Vec<u64>,
    n: usize,
    scope: Option<&str>,
    Ghost(fuel): Ghost<nat>,
) -> (r: String)
    requires
        n <= ids@.len(),
        idents_text(types@, *settings, ids@.take(n as int), scope_view(scope), fuel) is Some,
    ensures
        r@ == idents_text(types@, *settings, ids@.take(n as int), scope_view(scope), fuel)->0,
    decreases fuel, n,
{
    if n == 0 {
        String::new()
    } else {
        proof {
            assert(ids@.take(n as int).drop_last() =~= ids@.take(n - 1));
        }
        let a = idents_rec(types, settings, ids, n - 1, scope, Ghost(fuel));
        let b = ident_rec(types, settings, ids[n - 1], scope, false, Ghost(fuel));
        if n == 1 {
            b
        } else {
            a.concat(", ").concat(b.as_str())
        }
    }
}

/// The text naming type `id` of `types` where it is used, qualified by
/// `scope` and without generic arguments if `base`: what
/// [`type_ident`] says.
pub fn type_ident_text(
    types: &BTreeMap<u64, Type>,
    settings: &Settings,
    id: u64,
    scope: Option<&str>,
    base: bool,
) -> (r: String)
    requires
        nameable(types@, *settings, id, scope_view(scope), base),
    ensures
        r@ == type_ident(types@, *settings, id, scope_view(scope), base),
{
    let ghost fuel: nat = choose|fuel: nat| #[trigger] ident_text(types@, *settings, id, scope_view(scope), base, fuel) is Some;
    ident_rec(types, settings, id, scope, base, Ghost(fuel))
}

/// The path a derive attribute names trait `t` by under `std` syntax:
/// serde's and schemars' traits by their crate paths, the formatting and
/// parsing traits fully qualified when prelude types are, the others
/// bare.
pub open spec fn derive_path(t: TypespaceTrait, std: Std) -> Seq<char> {
    match t {
        TypespaceTrait::Serialize => "::serde::Serialize"@,
        TypespaceTrait::Deserialize => "::serde::Deserialize"@,
        TypespaceTrait::JsonSchema => "::schemars::JsonSchema"@,
        TypespaceTrait::Display => std_spelling(std, "::std::fmt::Display"@, "Display"@),
        TypespaceTrait::FromStr => std_spelling(std, "::std::str::FromStr"@, "FromStr"@),
        _ => trait_text(t),
    }
}

/// The derive paths of the members of `set` among the first `n` traits,
/// in declaration order.
pub open spec fn trait_derives(set: Set<TypespaceTrait>, std: Std, n: int) -> Seq<Seq<char>>
    decreases n,
{
    if n <= 0 {
        Seq::empty()
    } else if set.contains(trait_at(n - 1)) {
        trait_derives(set, std, n - 1).push(derive_path(trait_at(n - 1), std))
    } else {
        trait_derives(set, std, n - 1)
    }
}

/// `parts` separated by `", "`.
pub open spec fn comma_list(parts: Seq<Seq<char>>) -> Seq<char>
    decreases parts.len(),
{
    if parts.len() == 0 {
        Seq::empty()
    } else if parts.len() == 1 {
        parts[0]
    } else {
        comma_list(parts.drop_last()) + ", "@ + parts.last()
    }
}

/// The texts of a list of strings.
pub open spec fn texts(v: Seq<String>) -> Seq<Seq<char>> {
    v.map_values(|x: String| x@)
}

/// The derive attribute of a type with traits `set` and extra derives
/// `extra`: its traits in declaration order, then the settings' extra
/// derives, then the type's own; nothing when there is none.
pub open spec fn derive_attribute(set: Set<TypespaceTrait>, s: Settings, extra: Seq<String>) -> Option<Seq<char>> {
    let all = trait_derives(set, s.std, 13) + texts(s.extra_derives@) + texts(extra);
    if all.len() == 0 {
        None
    } else {
        Some("#[derive("@ + comma_list(all) + ")]"@)
    }
}

fn derive_path_text(t: TypespaceTrait, std: &Std) -> (r: &'static str)
    ensures
        r@ == derive_path(t, *std),
{
    match t {
        TypespaceTrait::Serialize => "::serde::Serialize",
        TypespaceTrait::Deserialize => "::serde::Deserialize",
        TypespaceTrait::JsonSchema => "::schemars::JsonSchema",
        TypespaceTrait::Display => match std {
            Std::FullyQualified => "::std::fmt::Display",
            Std::Unqualified => "Display",
        },
        TypespaceTrait::FromStr => match std {
            Std::FullyQualified => "::std::str::FromStr",
            Std::Unqualified => "FromStr",
        },
        _ => t.name(),
    }
}

/// Append `part` to the list `out` of `before`, as [`comma_list`] joins.
fn append_part(out: &mut String, nonempty: &mut bool, part: &str, Ghost(before): Ghost<Seq<Seq<char>>>)
    requires
        old(out)@ == comma_list(before),
        *old(nonempty) == (before.len() > 0),
    ensures
        final(out)@ == comma_list(before.push(part@)),
        *final(nonempty),
{
    proof {
        assert(before.push(part@).drop_last() =~= before);
    }
    if *nonempty {
        out.append(", ");
    } else {
        proof {
            assert(out@ =~= Seq::<char>::empty());
        }
    }
    out.append(part);
    proof {
        if before.len() == 0 {
            assert(out@ =~= part@);
        }
    }
    *nonempty = true;
}

/// Append `parts` to the list `out` of `before`, as [`comma_list`] joins.
fn append_list(out: &mut String, nonempty: &mut bool, parts: &Vec<String>, Ghost(before): Ghost<Seq<Seq<char>>>)
    requires
        old(out)@ == comma_list(before),
        *old(nonempty) == (before.len() > 0),
    ensures
        final(out)@ == comma_list(before + texts(parts@)),
        *final(nonempty) == ((before + texts(parts@)).len() > 0),
{
    let mut i: usize = 0;
    while i < parts.len()
        invariant
            i <= parts@.len(),
            out@ == comma_list(before + texts(parts@.take(i as int))),
            *nonempty == ((before + texts(parts@.take(i as int))).len() > 0),
        decreases parts@.len() - i,
    {
        let ghost acc = before + texts(parts@.take(i as int));
        proof {
            assert(before + texts(parts@.take(i + 1)) =~= acc.push(parts@[i as int]@));
        }
        append_part(out, nonempty, parts[i].as_str(), Ghost(acc));
        i = i + 1;
    }
    proof {
        assert(parts@.take(parts@.len() as int) =~= parts@);
    }
}

/// The derive attribute of a type with traits `traits` and extra derives
/// `extra_derives` under `settings`: what [`derive_attribute`] says.
/// `Display` and `FromStr` are implemented by hand, never derived.
pub fn render_derives(traits: &TypespaceTraitSet, settings: &Settings, extra_derives: &Vec<String>) -> (r: Option<String>)
    requires
        !traits@.contains(TypespaceTrait::Display),
        !traits@.contains(TypespaceTrait::FromStr),
    ensures
        r is Some <==> derive_attribute(traits@, *settings, extra_derives@) is Some,
        r matches Some(t) ==> t@ == derive_attribute(traits@, *settings, extra_derives@)->0,
{
    let mut out = String::new();
    let mut nonempty = false;
    let mut i: usize = 0;
    while i < 13
        invariant
            i <= 13,
            out@ == comma_list(trait_derives(traits@, settings.std, i as int)),
            nonempty == (trait_derives(traits@, settings.std, i as int).len() > 0),
        decreases 13 - i,
    {
        let t = trait_at_index(i);
        if traits.contains(&t) {
            append_part(&mut out, &mut nonempty, derive_path_text(t, &settings.std), Ghost(trait_derives(traits@, settings.std, i as int)));
        }
        i = i + 1;
    }
    let ghost base = trait_derives(traits@, settings.std, 13);
    append_list(&mut out, &mut nonempty, &settings.extra_derives, Ghost(base));
    append_list(&mut out, &mut nonempty, extra_derives, Ghost(base + texts(settings.extra_derives@)));
    if nonempty {
        Some("#[derive(".to_owned().concat(out.as_str()).concat(")]"))
    } else {
        None
    }
}

/// The doc attribute of a description: the text as a string literal.
pub open spec fn doc_attr(desc: Option<String>) -> Seq<char> {
    match desc {
        Some(d) => "#[doc = "@ + spec_quoted(d@) + "]\n"@,
        None => Seq::empty(),
    }
}

/// The item of type alias `id` of `m`: its description as a doc
/// attribute, then `pub type`, its name, and the text of its target.
pub open spec fn alias_item_text(m: Map<u64, Type>, s: Settings, id: u64) -> Seq<char> {
    let a = m[id]->TypeAlias_0;
    doc_attr(a.common.description) + "pub type "@ + a.common.name->0@ + " = "@ + type_ident(m, s, a.target, None, false)
        + ";"@
}

/// The item of type alias `id` of `types`: what [`alias_item_text`] says.
pub fn render_alias(types: &BTreeMap<u64, Type>, settings: &Settings, id: u64) -> (r: String)
    requires
        types@.contains_key(id),
        types@[id] is TypeAlias,
        types@[id]->TypeAlias_0.common.name is Some,
        nameable(types@, *settings, types@[id]->TypeAlias_0.target, None, false),
    ensures
        r@ == alias_item_text(types@, *settings, id),
{
    proof {
        lemma_u64_key_order();
    }
    match types.get(&id).unwrap() {
        Type::TypeAlias(a) => {
            let doc = match &a.common.description {
                Some(d) => "#[doc = ".to_owned().concat(quoted(d.as_str()).as_str()).concat("]\n"),
                None => String::new(),
            };
            let target = type_ident_text(types, settings, a.target, None, false);
            doc.concat("pub type ").concat(a.common.built_name()).concat(" = ").concat(target.as_str()).concat(";")
        },
        _ => String::new(),
    }
}

/// A type passed to a function as it is: a primitive or an option.
pub open spec fn simple_type(ty: Type) -> bool {
    ty is Boolean || ty is Integer || ty is Float || ty is Unit || ty is Option
}

/// The text of type `id` of `m` as a function parameter: unchanged for a
/// simple type, borrowed (prefixed with `&`) otherwise.
pub open spec fn parameter_text(m: Map<u64, Type>, s: Settings, id: u64, scope: Option<Seq<char>>) -> Seq<char> {
    if simple_type(m[id]) {
        type_ident(m, s, id, scope, false)
    } else {
        "&"@ + type_ident(m, s, id, scope, false)
    }
}

/// The text of type `id` of `types` as a function parameter, qualified by
/// `scope`: what [`parameter_text`] says.
pub fn parameter_ident_text(types: &BTreeMap<u64, Type>, settings: &Settings, id: u64, scope: Option<&str>) -> (r: String)
    requires
        nameable(types@, *settings, id, scope_view(scope), false),
    ensures
        r@ == parameter_text(types@, *settings, id, scope_view(scope)),
{
    proof {
        lemma_u64_key_order();
        let fuel = choose|fuel: nat| #[trigger] ident_text(types@, *settings, id, scope_view(scope), false, fuel) is Some;
        assert(types@.contains_key(id));
    }
    let ident = type_ident_text(types, settings, id, scope, false);
    let simple = match types.get(&id).unwrap() {
        Type::Boolean | Type::Integer(_) | Type::Float(_) | Type::Unit | Type::Option(_) => true,
        _ => false,
    };
    if simple {
        ident
    } else {
        "&".to_owned().concat(ident.as_str())
    }
}

} // verus!
