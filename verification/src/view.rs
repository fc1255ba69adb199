//! Query-side views of a finalized [`Typespace`].
//!
//! [`Typespace::get_type`] and [`Typespace::iter_types`] hand out
//! [`Type`] values: borrowed views that answer questions about a type
//! (its name, structural details, trait impls) without exposing the
//! underlying construction data. Names mirror the [`build`] module:
//! [`build::enums::EnumVariant`] is the construction form and
//! [`EnumVariant`] the finalized-view form of the same concept.

use std::collections::BTreeSet;

use vstd::prelude::*;

use crate::build;
use crate::desired::container_provides_spec;
use crate::finalize::Typespace;
use crate::render::{scope_view, scoped, type_ident};
use vstd::string::StringExecFns;
use crate::graph::{closed, lemma_u64_key_order};
use crate::settings::Settings;
use crate::trait_resolution::display_like;
use crate::traits::{TraitProvision, TypespaceTrait};

verus! {

broadcast use vstd::std_specs::btree::group_btree_axioms;

/// Whether type `id` of `m` has trait `x`, judged along a walk whose
/// current path holds the IDs in `seen`: a type already on the path
/// answers no, and `fuel` bounds how deep the walk goes.
///
/// A native answers from what it is known to implement; a named type
/// from the traits finalization gave it; a type alias forwards to its
/// target; a container or built-in type answers with the rules trait
/// resolution applies to it, asking its parameters in turn.
pub open spec fn has_trait_at(
    m: Map<u64, build::Type>,
    s: Settings,
    id: u64,
    x: TypespaceTrait,
    seen: Set<u64>,
    fuel: nat,
) -> bool
    decreases fuel, 1nat, 0int,
{
    if seen.contains(id) || fuel == 0 || !m.contains_key(id) {
        false
    } else {
        let on = seen.insert(id);
        let f = (fuel - 1) as nat;
        let supported = !display_like(x);
        match m[id] {
            build::Type::Native(n) => match n.provision_of(x) {
                TraitProvision::Always => true,
                TraitProvision::IfParameters => all_have_at(m, s, n.parameters@, x, on, f, 0),
                _ => false,
            },
            build::Type::TypeAlias(a) => has_trait_at(m, s, a.target, x, on, f),
            build::Type::Enum(_) | build::Type::Struct(_) | build::Type::UnitStruct(_) | build::Type::TupleStruct(_)
            | build::Type::NewtypeStruct(_) => m[id].built_of() matches Some(b) && b@.contains(x),
            build::Type::Option(e) => supported && (x == TypespaceTrait::Default || has_trait_at(m, s, e, x, on, f)),
            build::Type::Box(e) => supported && has_trait_at(m, s, e, x, on, f),
            build::Type::Array(e, _) => supported && has_trait_at(m, s, e, x, on, f),
            build::Type::Tuple(items) => supported && all_have_at(m, s, items@, x, on, f, 0),
            build::Type::Vec(e) => container_provides_spec(s.vec_type, x, has_trait_at(m, s, e, x, on, f)),
            build::Type::SetOf(e) => container_provides_spec(s.set_type, x, has_trait_at(m, s, e, x, on, f)),
            build::Type::MapOf(k, v) => container_provides_spec(
                s.map_type,
                x,
                has_trait_at(m, s, k, x, on, f) && has_trait_at(m, s, v, x, on, f),
            ),
            build::Type::Integer(_) | build::Type::Boolean | build::Type::String => true,
            build::Type::Unit | build::Type::Never => supported,
            build::Type::Float(_) => !(x == TypespaceTrait::Ord || x == TypespaceTrait::Eq || x == TypespaceTrait::Hash),
            build::Type::JsonValue => !(x == TypespaceTrait::Ord || x == TypespaceTrait::PartialOrd),
        }
    }
}

/// Whether each of `ids` from index `k` on has trait `x`, along the walk
/// whose path holds `seen`.
pub open spec fn all_have_at(
    m: Map<u64, build::Type>,
    s: Settings,
    ids: Seq<u64>,
    x: TypespaceTrait,
    seen: Set<u64>,
    fuel: nat,
    k: int,
) -> bool
    decreases fuel + 1, 0nat, ids.len() - k,
{
    if k < 0 || k >= ids.len() {
        true
    } else {
        has_trait_at(m, s, ids[k], x, seen, fuel) && all_have_at(m, s, ids, x, seen, fuel, k + 1)
    }
}

/// Whether type `id` of `m` has trait `x`: the walk from `id` with an
/// empty path and fuel for every type of `m`.
pub open spec fn has_impl_spec(m: Map<u64, build::Type>, s: Settings, id: u64, x: TypespaceTrait) -> bool {
    has_trait_at(m, s, id, x, Set::empty(), m.dom().len())
}

/// A named type other than an alias has, by the view's answer, exactly
/// the traits finalization gave it; an alias answers for its target.
pub proof fn law_has_impl_named(m: Map<u64, build::Type>, s: Settings, id: u64, x: TypespaceTrait)
    requires
        m.dom().finite(),
        m.contains_key(id),
        m[id].spec_is_named(),
    ensures
        !(m[id] is TypeAlias) ==> (has_impl_spec(m, s, id, x) <==> (m[id].built_of() matches Some(b) && b@.contains(x))),
        m[id] matches build::Type::TypeAlias(a) ==> has_impl_spec(m, s, id, x) == has_trait_at(
            m,
            s,
            a.target,
            x,
            Set::empty().insert(id),
            (m.dom().len() - 1) as nat,
        ),
{
    assert(m.dom().remove(id).len() == m.dom().len() - 1);
}

/// A yes holds on with a shorter path and more fuel: leaving types off
/// the path and going deeper can only add answers.
proof fn lemma_has_trait_mono(
    m: Map<u64, build::Type>,
    s: Settings,
    id: u64,
    x: TypespaceTrait,
    seen1: Set<u64>,
    f1: nat,
    seen2: Set<u64>,
    f2: nat,
)
    requires
        has_trait_at(m, s, id, x, seen1, f1),
        seen2.subset_of(seen1),
        f1 <= f2,
    ensures
        has_trait_at(m, s, id, x, seen2, f2),
    decreases f1, 1nat, 0int,
{
    let on1 = seen1.insert(id);
    let on2 = seen2.insert(id);
    let g1 = (f1 - 1) as nat;
    let g2 = (f2 - 1) as nat;
    assert(on2.subset_of(on1));
    match m[id] {
        build::Type::Native(n) => {
            if n.provision_of(x) is IfParameters {
                lemma_all_have_mono(m, s, n.parameters@, x, on1, g1, on2, g2, 0);
            }
        },
        build::Type::TypeAlias(a) => lemma_has_trait_mono(m, s, a.target, x, on1, g1, on2, g2),
        build::Type::Option(e) => {
            if x != TypespaceTrait::Default {
                lemma_has_trait_mono(m, s, e, x, on1, g1, on2, g2);
            }
        },
        build::Type::Box(e) => lemma_has_trait_mono(m, s, e, x, on1, g1, on2, g2),
        build::Type::Array(e, _) => lemma_has_trait_mono(m, s, e, x, on1, g1, on2, g2),
        build::Type::Tuple(items) => lemma_all_have_mono(m, s, items@, x, on1, g1, on2, g2, 0),
        build::Type::Vec(e) | build::Type::SetOf(e) => {
            if has_trait_at(m, s, e, x, on1, g1) {
                lemma_has_trait_mono(m, s, e, x, on1, g1, on2, g2);
            }
        },
        build::Type::MapOf(k, v) => {
            if has_trait_at(m, s, k, x, on1, g1) && has_trait_at(m, s, v, x, on1, g1) {
                lemma_has_trait_mono(m, s, k, x, on1, g1, on2, g2);
                lemma_has_trait_mono(m, s, v, x, on1, g1, on2, g2);
            }
        },
        _ => {},
    }
}

/// [`lemma_has_trait_mono`] for a list of types.
proof fn lemma_all_have_mono(
    m: Map<u64, build::Type>,
    s: Settings,
    ids: Seq<u64>,
    x: TypespaceTrait,
    seen1: Set<u64>,
    f1: nat,
    seen2: Set<u64>,
    f2: nat,
    k: int,
)
    requires
        all_have_at(m, s, ids, x, seen1, f1, k),
        seen2.subset_of(seen1),
        f1 <= f2,
    ensures
        all_have_at(m, s, ids, x, seen2, f2, k),
    decreases f1 + 1, 0nat, ids.len() - k,
{
    if 0 <= k < ids.len() {
        lemma_has_trait_mono(m, s, ids[k], x, seen1, f1, seen2, f2);
        lemma_all_have_mono(m, s, ids, x, seen1, f1, seen2, f2, k + 1);
    }
}

/// Each of a list of types that all have a trait has it.
proof fn lemma_all_have_each(
    m: Map<u64, build::Type>,
    s: Settings,
    ids: Seq<u64>,
    x: TypespaceTrait,
    seen: Set<u64>,
    f: nat,
    k: int,
    i: int,
)
    requires
        all_have_at(m, s, ids, x, seen, f, k),
        0 <= k <= i < ids.len(),
    ensures
        has_trait_at(m, s, ids[i], x, seen, f),
    decreases i - k,
{
    if k < i {
        lemma_all_have_each(m, s, ids, x, seen, f, k + 1, i);
    }
}

/// The types whose answer for trait `x` depends on what they hold: an
/// alias, a box, an array and a tuple always; an option unless the trait
/// is `Default`; a vec, set or map, and a native, when their declaration
/// provides `x` only if their parameters do.
pub open spec fn passes_through(m: Map<u64, build::Type>, s: Settings, id: u64, x: TypespaceTrait) -> bool {
    match m[id] {
        build::Type::TypeAlias(_) | build::Type::Box(_) | build::Type::Array(_, _) | build::Type::Tuple(_) => true,
        build::Type::Option(_) => x != TypespaceTrait::Default,
        build::Type::Vec(_) => s.vec_type.provision_of(x) is IfParameters,
        build::Type::SetOf(_) => s.set_type.provision_of(x) is IfParameters,
        build::Type::MapOf(_, _) => s.map_type.provision_of(x) is IfParameters,
        build::Type::Native(n) => n.provision_of(x) is IfParameters,
        _ => false,
    }
}

/// A type whose trait depends on what it holds has the trait only if
/// everything it holds does: a map is `Eq` only if its key and its value
/// are, a vec only if its element is, a tuple only if each element is.
pub proof fn law_has_impl_needs_children(m: Map<u64, build::Type>, s: Settings, id: u64, x: TypespaceTrait, c: u64)
    requires
        m.dom().finite(),
        m.contains_key(id),
        passes_through(m, s, id, x),
        m[id].spec_children().contains(c),
        has_impl_spec(m, s, id, x),
    ensures
        has_impl_spec(m, s, c, x),
{
    let n = m.dom().len();
    assert(m.dom().contains(id));
    assert(n > 0);
    let on = Set::<u64>::empty().insert(id);
    let f = (n - 1) as nat;
    let i = choose|i: int| 0 <= i < m[id].spec_children().len() && m[id].spec_children()[i] == c;
    match m[id] {
        build::Type::Native(nt) => lemma_all_have_each(m, s, nt.parameters@, x, on, f, 0, i),
        build::Type::Tuple(items) => lemma_all_have_each(m, s, items@, x, on, f, 0, i),
        build::Type::MapOf(k, v) => {
            assert(c == k || c == v);
        },
        _ => {},
    }
    assert(has_trait_at(m, s, c, x, on, f));
    lemma_has_trait_mono(m, s, c, x, on, f, Set::empty(), n);
}

/// The built-in types that hold nothing answer from what they are: an
/// integer, a bool and a string have every trait; a float lacks `Eq`,
/// `Ord` and `Hash`; a JSON value lacks `Ord` and `PartialOrd`; the unit
/// and never types lack only the traits read from or written to text.
pub proof fn law_has_impl_leaf(m: Map<u64, build::Type>, s: Settings, id: u64, x: TypespaceTrait)
    requires
        m.dom().finite(),
        m.contains_key(id),
    ensures
        m[id] is Integer || m[id] is Boolean || m[id] is String ==> has_impl_spec(m, s, id, x),
        m[id] is Float ==> (has_impl_spec(m, s, id, x) <==> !(x == TypespaceTrait::Ord || x == TypespaceTrait::Eq || x
            == TypespaceTrait::Hash)),
        m[id] is JsonValue ==> (has_impl_spec(m, s, id, x) <==> !(x == TypespaceTrait::Ord || x == TypespaceTrait::PartialOrd)),
        m[id] is Unit || m[id] is Never ==> (has_impl_spec(m, s, id, x) <==> !display_like(x)),
{
    assert(m.dom().contains(id));
    assert(m.dom().len() > 0);
}

/// The fuel a walk from path `seen` starts with suffices: at least one
/// unit for each type not yet on the path.
pub open spec fn fuel_enough(m: Map<u64, build::Type>, seen: Set<u64>, fuel: nat) -> bool {
    &&& m.dom().finite()
    &&& seen.subset_of(m.dom())
    &&& fuel >= m.dom().difference(seen).len()
}

/// Entering `id` off the path uses one unit of fuel, and leaves enough.
proof fn lemma_enter(m: Map<u64, build::Type>, seen: Set<u64>, id: u64, fuel: nat)
    requires
        fuel_enough(m, seen, fuel),
        m.contains_key(id),
        !seen.contains(id),
    ensures
        fuel > 0,
        fuel_enough(m, seen.insert(id), (fuel - 1) as nat),
{
    let rest = m.dom().difference(seen);
    assert(rest.contains(id));
    assert(m.dom().difference(seen.insert(id)) =~= rest.remove(id));
}

/// Whether type `id` of `ts` has trait `x`; `seen` holds the IDs on the
/// walk's current path, and is as it was when the call returns.
fn has_trait(ts: &Typespace, id: u64, x: TypespaceTrait, seen: &mut BTreeSet<u64>, Ghost(fuel): Ghost<nat>) -> (b: bool)
    requires
        closed(ts.types_of()),
        ts.types_of().contains_key(id),
        fuel_enough(ts.types_of(), old(seen)@, fuel),
    ensures
        final(seen)@ == old(seen)@,
        b == has_trait_at(ts.types_of(), ts.settings_of(), id, x, old(seen)@, fuel),
    decreases fuel, 1nat, 0int,
{
    proof {
        lemma_u64_key_order();
    }
    if seen.contains(&id) {
        return false;
    }
    let ghost m = ts.types_of();
    let ghost s0 = seen@;
    proof {
        lemma_enter(m, s0, id, fuel);
    }
    let ghost f = (fuel - 1) as nat;
    seen.insert(id);
    let ty = ts.type_at(id);
    proof {
        assert forall|i: int| 0 <= i < ty.spec_children().len() implies m.contains_key(#[trigger] ty.spec_children()[i]) by {
            assert(ty.spec_children().contains(ty.spec_children()[i]));
        }
        match ty {
            build::Type::TypeAlias(a) => assert(ty.spec_children()[0] == a.target),
            build::Type::Option(e) => assert(ty.spec_children()[0] == *e),
            build::Type::Box(e) => assert(ty.spec_children()[0] == *e),
            build::Type::Array(e, _) => assert(ty.spec_children()[0] == *e),
            build::Type::Vec(e) => assert(ty.spec_children()[0] == *e),
            build::Type::SetOf(e) => assert(ty.spec_children()[0] == *e),
            build::Type::MapOf(k, v) => assert(ty.spec_children()[0] == *k && ty.spec_children()[1] == *v),
            build::Type::Native(n) => assert(ty.spec_children() == n.parameters@),
            build::Type::Tuple(items) => assert(ty.spec_children() == items@),
            _ => {},
        }
    }
    let supported = !(x == TypespaceTrait::Display || x == TypespaceTrait::FromStr);
    let answer = match ty {
        build::Type::Native(n) => match n.disposition(x) {
            TraitProvision::Always => true,
            TraitProvision::IfParameters => all_have(ts, &n.parameters, x, seen, Ghost(f)),
            _ => false,
        },
        build::Type::TypeAlias(a) => has_trait(ts, a.target, x, seen, Ghost(f)),
        build::Type::Enum(_) | build::Type::Struct(_) | build::Type::UnitStruct(_) | build::Type::TupleStruct(_)
        | build::Type::NewtypeStruct(_) => match ty.built_traits() {
            Some(traits) => traits.contains(&x),
            None => false,
        },
        build::Type::Option(e) => supported && (x == TypespaceTrait::Default || has_trait(ts, *e, x, seen, Ghost(f))),
        build::Type::Box(e) => supported && has_trait(ts, *e, x, seen, Ghost(f)),
        build::Type::Array(e, _) => supported && has_trait(ts, *e, x, seen, Ghost(f)),
        build::Type::Tuple(items) => supported && all_have(ts, items, x, seen, Ghost(f)),
        build::Type::Vec(e) => match ts.settings_ref().vec_type.provision(x) {
            TraitProvision::Always => true,
            TraitProvision::IfParameters => has_trait(ts, *e, x, seen, Ghost(f)),
            _ => false,
        },
        build::Type::SetOf(e) => match ts.settings_ref().set_type.provision(x) {
            TraitProvision::Always => true,
            TraitProvision::IfParameters => has_trait(ts, *e, x, seen, Ghost(f)),
            _ => false,
        },
        build::Type::MapOf(k, v) => match ts.settings_ref().map_type.provision(x) {
            TraitProvision::Always => true,
            TraitProvision::IfParameters => has_trait(ts, *k, x, seen, Ghost(f)) && has_trait(ts, *v, x, seen, Ghost(f)),
            _ => false,
        },
        build::Type::Integer(_) | build::Type::Boolean | build::Type::String => true,
        build::Type::Unit | build::Type::Never => supported,
        build::Type::Float(_) => !(x == TypespaceTrait::Ord || x == TypespaceTrait::Eq || x == TypespaceTrait::Hash),
        build::Type::JsonValue => !(x == TypespaceTrait::Ord || x == TypespaceTrait::PartialOrd),
    };
    seen.remove(&id);
    proof {
        assert(seen@ =~= s0);
    }
    answer
}

/// Whether each of `ids` has trait `x`, along the walk whose path holds
/// `seen`.
fn all_have(ts: &Typespace, ids: &Vec<u64>, x: TypespaceTrait, seen: &mut BTreeSet<u64>, Ghost(fuel): Ghost<nat>) -> (b: bool)
    requires
        closed(ts.types_of()),
        forall|i: int| 0 <= i < ids@.len() ==> ts.types_of().contains_key(#[trigger] ids@[i]),
        fuel_enough(ts.types_of(), old(seen)@, fuel),
    ensures
        final(seen)@ == old(seen)@,
        b == all_have_at(ts.types_of(), ts.settings_of(), ids@, x, old(seen)@, fuel, 0),
    decreases fuel + 1, 0nat, 0int,
{
    let ghost m = ts.types_of();
    let ghost s = ts.settings_of();
    let mut i: usize = 0;
    while i < ids.len()
        invariant
            i <= ids@.len(),
            m == ts.types_of(),
            s == ts.settings_of(),
            closed(m),
            forall|j: int| 0 <= j < ids@.len() ==> m.contains_key(#[trigger] ids@[j]),
            seen@ == old(seen)@,
            fuel_enough(m, seen@, fuel),
            all_have_at(m, s, ids@, x, seen@, fuel, 0) == all_have_at(m, s, ids@, x, seen@, fuel, i as int),
        decreases ids@.len() - i,
    {
        if !has_trait(ts, ids[i], x, seen, Ghost(fuel)) {
            return false;
        }
        i = i + 1;
    }
    true
}

/// A view of a type in a finalized [`Typespace`].
pub struct Type<'a> {
    typespace: &'a Typespace,
    id: u64,
    typ: &'a build::Type,
}

impl<'a> Type<'a> {
    /// The viewed type is type `id` of its typespace.
    #[verifier::type_invariant]
    spec fn placed(self) -> bool {
        self.typespace.types_of().contains_key(self.id) && *self.typ == self.typespace.types_of()[self.id]
    }

    /// The typespace the viewed type belongs to.
    pub closed spec fn space(self) -> Typespace {
        *self.typespace
    }

    /// The ID of the viewed type.
    pub closed spec fn type_id(self) -> u64 {
        self.id
    }

    /// The viewed type.
    pub closed spec fn shape(self) -> build::Type {
        *self.typ
    }

    /// The view of type `id` of `typespace`.
    pub(crate) fn at(typespace: &'a Typespace, id: u64) -> (r: Self)
        requires
            typespace.types_of().contains_key(id),
        ensures
            r.space() == *typespace,
            r.type_id() == id,
            r.shape() == typespace.types_of()[id],
    {
        Type { typespace, id, typ: typespace.type_at(id) }
    }

    /// The Rust text naming this type where it is used.
    pub fn ident(&self) -> (r: String)
        ensures
            r@ == type_ident(self.space().types_of(), self.space().settings_of(), self.type_id(), None, false),
    {
        proof {
            use_type_invariant(self);
        }
        self.typespace.ident(self.id)
    }

    /// The Rust text naming this type, with named types qualified by the
    /// module `scope`; container and built-in types thread the scope
    /// through to the named types they mention.
    pub fn ident_in(&self, scope: &str) -> (r: String)
        ensures
            r@ == type_ident(self.space().types_of(), self.space().settings_of(), self.type_id(), Some(scope@), false),
    {
        proof {
            use_type_invariant(self);
        }
        self.typespace.ident_in(self.id, scope)
    }

    /// The Rust text of this type as a function parameter type: a
    /// primitive, the unit type and an enum of unit variants only go by
    /// value, a string is a `&str`, an option and a tuple apply the rule
    /// to what they hold, and every other type is borrowed. `scope`
    /// qualifies named types as [`Type::ident_in`] does; `lifetime`
    /// (written with its apostrophe, such as `'a`) is named on every
    /// reference the parameter introduces.
    pub fn parameter_ident(&self, scope: Option<&str>, lifetime: Option<&str>) -> (r: String)
        ensures
            r@ == crate::params::parameter_type(
                self.space().types_of(),
                self.space().settings_of(),
                self.type_id(),
                scope_view(scope),
                scope_view(lifetime),
            ),
    {
        proof {
            use_type_invariant(self);
        }
        self.typespace.parameter_type(self.id, scope, lifetime)
    }

    /// The identifier of this type's generated builder: `builder::Name`
    /// for a struct when the settings generate builders, qualified by
    /// `scope` the way [`Type::ident_in`] qualifies a type; nothing
    /// otherwise.
    pub fn builder_ident(&self, scope: Option<&str>) -> (r: Option<String>)
        ensures
            r is Some <==> self.shape() is Struct && self.space().settings_of().struct_builder,
            r matches Some(t) ==> t@ == scoped(scope_view(scope), "builder::"@ + self.shape().common_of()->0.name->0@),
    {
        proof {
            use_type_invariant(self);
            use_type_invariant(self.typespace);
            assert(self.typespace.types_of()[self.id].spec_is_named() ==> self.typespace.types_of()[self.id].common_of()->0.name is Some);
        }
        match self.typ {
            build::Type::Struct(st) => {
                if self.typespace.settings().struct_builder {
                    let name = match &st.common.name {
                        Some(n) => n.as_str(),
                        None => "",
                    };
                    let base = "builder::".to_owned().concat(name);
                    match scope {
                        Some(sc) => Some(sc.to_owned().concat("::").concat(base.as_str())),
                        None => Some(base),
                    }
                } else {
                    None
                }
            },
            _ => None,
        }
    }

    /// The name of this type: the name a named type was built with; no
    /// other type has a name of its own.
    pub fn name(&self) -> (r: Option<&'a str>)
        ensures
            r is Some <==> self.shape().spec_is_named() && self.shape().common_of()->0.name is Some,
            r matches Some(n) ==> n@ == self.shape().common_of()->0.name->0@,
    {
        match self.typ.common() {
            Some(c) => c.name(),
            None => None,
        }
    }

    /// The description (doc comment source) for this type, if any.
    pub fn description(&self) -> (r: Option<&'a str>)
        ensures
            r is Some <==> self.shape().spec_is_named() && self.shape().common_of()->0.description is Some,
            r matches Some(d) ==> d@ == self.shape().common_of()->0.description->0@,
    {
        match self.typ.common() {
            Some(c) => c.description(),
            None => None,
        }
    }

    /// Structural details of this type.
    pub fn details(&self) -> (r: TypeDetails<'a>)
        ensures
            details_of(self.shape(), r),
    {
        match self.typ {
            build::Type::Enum(e) => TypeDetails::Enum(Enum { inner: e }),
            build::Type::Struct(s) => TypeDetails::Struct(Struct { inner: s }),
            build::Type::NewtypeStruct(n) => TypeDetails::Newtype(NewtypeStruct { inner: n }),
            build::Type::Option(id) => TypeDetails::Option(*id),
            build::Type::Vec(id) => TypeDetails::Vec(*id),
            build::Type::MapOf(k, v) => TypeDetails::MapOf(*k, *v),
            build::Type::SetOf(id) => TypeDetails::SetOf(*id),
            build::Type::Box(id) => TypeDetails::Box(*id),
            build::Type::Array(id, n) => TypeDetails::Array(*id, *n),
            build::Type::Tuple(ids) => TypeDetails::Tuple(ids.clone()),
            build::Type::Unit => TypeDetails::Unit,
            build::Type::String => TypeDetails::String,
            build::Type::Boolean => TypeDetails::Builtin("bool"),
            build::Type::Integer(s) => TypeDetails::Builtin(s.as_str()),
            build::Type::Float(s) => TypeDetails::Builtin(s.as_str()),
            build::Type::JsonValue => TypeDetails::Builtin("::serde_json::Value"),
            build::Type::Never => TypeDetails::Builtin("::json_serde::Absent"),
            build::Type::Native(n) => TypeDetails::Builtin(n.path()),
            build::Type::UnitStruct(u) => TypeDetails::Builtin(u.common.name_or_empty()),
            build::Type::TupleStruct(t) => TypeDetails::Builtin(t.common.name_or_empty()),
            build::Type::TypeAlias(a) => TypeDetails::Builtin(a.common.name_or_empty()),
        }
    }

    /// Whether this type implements the given trait.
    ///
    /// A native type answers from what it is known to implement, so a
    /// trait its declaration cannot answer for gives `false`. A
    /// container's answer (`Vec`, `Option`, map, set, `Box`, an array, a
    /// tuple) depends on its children and, for the configurable
    /// containers, on the declared container tables that trait resolution
    /// consults, descending into each child through this same method; a
    /// type alias forwards to its target. A type met again along the way
    /// answers `false`.
    pub fn has_impl(&self, trait_: TypespaceTrait) -> (b: bool)
        requires
            closed(self.space().types_of()),
            self.space().types_of().contains_key(self.type_id()),
        ensures
            b == has_impl_spec(self.space().types_of(), self.space().settings_of(), self.type_id(), trait_),
    {
        let mut seen: BTreeSet<u64> = BTreeSet::new();
        proof {
            self.typespace.lemma_types_finite();
            let m = self.typespace.types_of();
            assert(m.dom().difference(seen@) =~= m.dom());
        }
        has_trait(self.typespace, self.id, trait_, &mut seen, Ghost(self.typespace.types_of().dom().len()))
    }
}

/// `d` reports the structure of type `ty`.
pub open spec fn details_of(ty: build::Type, d: TypeDetails) -> bool {
    match ty {
        build::Type::Enum(e) => d matches TypeDetails::Enum(v) && v.shape() == e,
        build::Type::Struct(s) => d matches TypeDetails::Struct(v) && v.shape() == s,
        build::Type::NewtypeStruct(n) => d matches TypeDetails::Newtype(v) && v.shape() == n,
        build::Type::Option(id) => d == TypeDetails::Option(id),
        build::Type::Vec(id) => d == TypeDetails::Vec(id),
        build::Type::MapOf(k, v) => d == TypeDetails::MapOf(k, v),
        build::Type::SetOf(id) => d == TypeDetails::SetOf(id),
        build::Type::Box(id) => d == TypeDetails::Box(id),
        build::Type::Array(id, n) => d == TypeDetails::Array(id, n),
        build::Type::Tuple(ids) => d matches TypeDetails::Tuple(v) && v@ == ids@,
        build::Type::Unit => d == TypeDetails::Unit,
        build::Type::String => d == TypeDetails::String,
        build::Type::Boolean => d matches TypeDetails::Builtin(t) && t@ == "bool"@,
        build::Type::Integer(s) => d matches TypeDetails::Builtin(t) && t@ == s@,
        build::Type::Float(s) => d matches TypeDetails::Builtin(t) && t@ == s@,
        build::Type::JsonValue => d matches TypeDetails::Builtin(t) && t@ == "::serde_json::Value"@,
        build::Type::Never => d matches TypeDetails::Builtin(t) && t@ == "::json_serde::Absent"@,
        build::Type::Native(n) => d matches TypeDetails::Builtin(t) && t@ == n.path_of(),
        _ => d matches TypeDetails::Builtin(t) && t@ == (match ty.common_of()->0.name {
            Some(n) => n@,
            None => Seq::empty(),
        }),
    }
}

/// Structural details of a type, as reported by [`Type::details`].
#[non_exhaustive]
pub enum TypeDetails<'a> {
    Enum(Enum<'a>),
    Struct(Struct<'a>),
    Newtype(NewtypeStruct<'a>),
    Option(u64),
    Vec(u64),
    MapOf(u64, u64),
    SetOf(u64),
    Box(u64),
    Tuple(Vec<u64>),
    Array(u64, usize),
    Builtin(&'a str),
    Unit,
    String,
}

/// A view of a struct type's properties.
pub struct Struct<'a> {
    inner: &'a build::structs::Struct,
}

/// Information about a single struct property.
pub struct StructProperty<'a> {
    /// The Rust field name.
    pub name: &'a str,
    /// The description (doc comment source) for the property, if any.
    pub description: Option<&'a str>,
    /// `true` if the field must be present in the serialized form.
    pub required: bool,
    /// The ID of the property's type.
    pub type_id: u64,
}

impl<'a> Struct<'a> {
    /// The viewed struct.
    pub closed spec fn shape(self) -> build::structs::Struct {
        *self.inner
    }

    /// The `(property_name, type_id)` pairs, in declaration order.
    pub fn properties(&self) -> (r: Vec<(&'a str, u64)>)
        ensures
            r@.len() == self.shape().properties@.len(),
            forall|i: int|
                0 <= i < r@.len() ==> (#[trigger] r@[i]).0@ == self.shape().properties@[i].rust_name@ && r@[i].1
                    == self.shape().properties@[i].type_id,
    {
        let props = &self.inner.properties;
        let mut out: Vec<(&'a str, u64)> = Vec::new();
        let mut i: usize = 0;
        while i < props.len()
            invariant
                props@ == self.shape().properties@,
                i <= props@.len(),
                out@.len() == i,
                forall|k: int|
                    0 <= k < i ==> (#[trigger] out@[k]).0@ == props@[k].rust_name@ && out@[k].1 == props@[k].type_id,
            decreases props@.len() - i,
        {
            out.push((props[i].rust_name.as_str(), props[i].type_id));
            i = i + 1;
        }
        out
    }

    /// Full property information, in declaration order.
    pub fn properties_info(&self) -> (r: Vec<StructProperty<'a>>)
        ensures
            r@.len() == self.shape().properties@.len(),
            forall|i: int| 0 <= i < r@.len() ==> property_info_of(self.shape().properties@[i], #[trigger] r@[i]),
    {
        let props = &self.inner.properties;
        let mut out: Vec<StructProperty<'a>> = Vec::new();
        let mut i: usize = 0;
        while i < props.len()
            invariant
                props@ == self.shape().properties@,
                i <= props@.len(),
                out@.len() == i,
                forall|k: int| 0 <= k < i ==> property_info_of(props@[k], #[trigger] out@[k]),
            decreases props@.len() - i,
        {
            let p = &props[i];
            let info = StructProperty {
                name: p.rust_name.as_str(),
                description: p.description(),
                required: match p.state {
                    build::structs::StructPropertyState::Required => true,
                    _ => false,
                },
                type_id: p.type_id,
            };
            out.push(info);
            i = i + 1;
        }
        out
    }
}

/// `info` reports property `p`.
pub open spec fn property_info_of(p: build::structs::StructProperty, info: StructProperty) -> bool {
    &&& info.name@ == p.rust_name@
    &&& (info.description is Some <==> p.description is Some)
    &&& (info.description matches Some(d) ==> d@ == p.description->0@)
    &&& info.required == (p.state is Required)
    &&& info.type_id == p.type_id
}

/// A view of an enum type's variants.
pub struct Enum<'a> {
    inner: &'a build::enums::Enum,
}

/// Full information about a single enum variant.
pub struct EnumVariant<'a> {
    /// The Rust name of the variant.
    pub name: &'a str,
    /// The description (doc comment source) for the variant, if any.
    pub description: Option<&'a str>,
    /// The variant's associated data.
    pub details: VariantDetails,
}

/// The associated data of an enum variant.
#[non_exhaustive]
pub enum VariantDetails {
    /// A unit variant with no associated data.
    Unit,
    /// A variant with one or more unnamed values of the given types.
    Tuple(Vec<u64>),
    /// A struct-like variant with named fields.
    Struct(Vec<(String, u64)>),
}

/// `info` reports the associated data `d`: a single item reads as a
/// one-element tuple.
pub open spec fn variant_info_of(d: build::enums::VariantDetails, info: VariantDetails) -> bool {
    match d {
        build::enums::VariantDetails::Unit => info is Unit,
        build::enums::VariantDetails::Item(id) => info matches VariantDetails::Tuple(ids) && ids@ == seq![id],
        build::enums::VariantDetails::Tuple(ids) => info matches VariantDetails::Tuple(v) && v@ == ids@,
        build::enums::VariantDetails::Struct(props) => info matches VariantDetails::Struct(fields) && fields@.len()
            == props@.len() && forall|i: int|
            0 <= i < fields@.len() ==> (#[trigger] fields@[i]).0@ == props@[i].rust_name@ && fields@[i].1
                == props@[i].type_id,
    }
}

/// The view form of a variant's associated data.
fn variant_details_to_info(details: &build::enums::VariantDetails) -> (r: VariantDetails)
    ensures
        variant_info_of(*details, r),
{
    match details {
        build::enums::VariantDetails::Unit => VariantDetails::Unit,
        build::enums::VariantDetails::Item(id) => {
            let mut v: Vec<u64> = Vec::new();
            v.push(*id);
            proof {
                assert(v@ =~= seq![*id]);
            }
            VariantDetails::Tuple(v)
        },
        build::enums::VariantDetails::Tuple(ids) => VariantDetails::Tuple(ids.clone()),
        build::enums::VariantDetails::Struct(props) => {
            let mut fields: Vec<(String, u64)> = Vec::new();
            let mut i: usize = 0;
            while i < props.len()
                invariant
                    i <= props@.len(),
                    fields@.len() == i,
                    forall|k: int|
                        0 <= k < i ==> (#[trigger] fields@[k]).0@ == props@[k].rust_name@ && fields@[k].1 == props@[k].type_id,
                decreases props@.len() - i,
            {
                fields.push((props[i].rust_name.clone(), props[i].type_id));
                i = i + 1;
            }
            VariantDetails::Struct(fields)
        },
    }
}

impl<'a> Enum<'a> {
    /// The viewed enum.
    pub closed spec fn shape(self) -> build::enums::Enum {
        *self.inner
    }

    /// The `(variant_name, variant_details)` pairs, in declaration order.
    pub fn variants(&self) -> (r: Vec<(&'a str, VariantDetails)>)
        ensures
            r@.len() == self.shape().variants@.len(),
            forall|i: int|
                0 <= i < r@.len() ==> (#[trigger] r@[i]).0@ == self.shape().variants@[i].rust_name@ && variant_info_of(
                    self.shape().variants@[i].details,
                    r@[i].1,
                ),
    {
        let vs = &self.inner.variants;
        let mut out: Vec<(&'a str, VariantDetails)> = Vec::new();
        let mut i: usize = 0;
        while i < vs.len()
            invariant
                vs@ == self.shape().variants@,
                i <= vs@.len(),
                out@.len() == i,
                forall|k: int|
                    0 <= k < i ==> (#[trigger] out@[k]).0@ == vs@[k].rust_name@ && variant_info_of(vs@[k].details, out@[k].1),
            decreases vs@.len() - i,
        {
            out.push((vs[i].rust_name.as_str(), variant_details_to_info(&vs[i].details)));
            i = i + 1;
        }
        out
    }

    /// Full variant information, in declaration order.
    pub fn variants_info(&self) -> (r: Vec<EnumVariant<'a>>)
        ensures
            r@.len() == self.shape().variants@.len(),
            forall|i: int|
                0 <= i < r@.len() ==> {
                    let v = self.shape().variants@[i];
                    &&& (#[trigger] r@[i]).name@ == v.rust_name@
                    &&& (r@[i].description is Some <==> v.description is Some)
                    &&& (r@[i].description matches Some(d) ==> d@ == v.description->0@)
                    &&& variant_info_of(v.details, r@[i].details)
                },
    {
        let vs = &self.inner.variants;
        let mut out: Vec<EnumVariant<'a>> = Vec::new();
        let mut i: usize = 0;
        while i < vs.len()
            invariant
                vs@ == self.shape().variants@,
                i <= vs@.len(),
                out@.len() == i,
                forall|k: int|
                    0 <= k < i ==> {
                        let v = vs@[k];
                        &&& (#[trigger] out@[k]).name@ == v.rust_name@
                        &&& (out@[k].description is Some <==> v.description is Some)
                        &&& (out@[k].description matches Some(d) ==> d@ == v.description->0@)
                        &&& variant_info_of(v.details, out@[k].details)
                    },
            decreases vs@.len() - i,
        {
            let v = &vs[i];
            let description = match &v.description {
                Some(d) => Some(d.as_str()),
                None => None,
            };
            out.push(EnumVariant { name: v.rust_name.as_str(), description, details: variant_details_to_info(&v.details) });
            i = i + 1;
        }
        out
    }
}

/// A view of a newtype struct's inner type.
pub struct NewtypeStruct<'a> {
    inner: &'a build::structs::NewtypeStruct,
}

impl<'a> NewtypeStruct<'a> {
    /// The viewed newtype struct.
    pub closed spec fn shape(self) -> build::structs::NewtypeStruct {
        *self.inner
    }

    /// The inner type wrapped by this newtype.
    pub fn inner(&self) -> (r: u64)
        ensures
            r == self.shape().inner,
    {
        self.inner.inner
    }
}

} // verus!
