//! Settings that govern how types are processed and rendered.

use vstd::prelude::*;

use vstd::string::StringExecFns;

use crate::syntax::{
    parses_as_plain_path, parses_as_type, quoted, spec_parses_as_plain_path, spec_parses_as_type, type_parse_error,
};
use crate::traits::{trait_at, trait_at_index, trait_index, TraitProvision, TypespaceTrait, TypespaceTraitSet, TRAIT_COUNT};

verus! {

/// One [`TraitProvision`] for every trait typespace tracks.
#[derive(Debug, Clone, Copy, PartialEq, Eq, Structural)]
pub struct ProvisionTable {
    deserialize: TraitProvision,
    serialize: TraitProvision,
    clone: TraitProvision,
    debug: TraitProvision,
    json_schema: TraitProvision,
    display: TraitProvision,
    from_str: TraitProvision,
    eq: TraitProvision,
    hash: TraitProvision,
    ord: TraitProvision,
    partial_eq: TraitProvision,
    partial_ord: TraitProvision,
    default: TraitProvision,
}

impl ProvisionTable {
    /// What the table says about `t`.
    pub closed spec fn at(self, t: TypespaceTrait) -> TraitProvision {
        match t {
            TypespaceTrait::Deserialize => self.deserialize,
            TypespaceTrait::Serialize => self.serialize,
            TypespaceTrait::Clone => self.clone,
            TypespaceTrait::Debug => self.debug,
            TypespaceTrait::JsonSchema => self.json_schema,
            TypespaceTrait::Display => self.display,
            TypespaceTrait::FromStr => self.from_str,
            TypespaceTrait::Eq => self.eq,
            TypespaceTrait::Hash => self.hash,
            TypespaceTrait::Ord => self.ord,
            TypespaceTrait::PartialEq => self.partial_eq,
            TypespaceTrait::PartialOrd => self.partial_ord,
            TypespaceTrait::Default => self.default,
        }
    }

    fn uniform(p: TraitProvision) -> (table: Self)
        ensures
            forall|t: TypespaceTrait| #[trigger] table.at(t) == p,
    {
        ProvisionTable {
            deserialize: p,
            serialize: p,
            clone: p,
            debug: p,
            json_schema: p,
            display: p,
            from_str: p,
            eq: p,
            hash: p,
            ord: p,
            partial_eq: p,
            partial_ord: p,
            default: p,
        }
    }

    /// What the table says about `t`.
    pub fn get(&self, t: TypespaceTrait) -> (p: TraitProvision)
        ensures
            p == self.at(t),
    {
        match t {
            TypespaceTrait::Deserialize => self.deserialize,
            TypespaceTrait::Serialize => self.serialize,
            TypespaceTrait::Clone => self.clone,
            TypespaceTrait::Debug => self.debug,
            TypespaceTrait::JsonSchema => self.json_schema,
            TypespaceTrait::Display => self.display,
            TypespaceTrait::FromStr => self.from_str,
            TypespaceTrait::Eq => self.eq,
            TypespaceTrait::Hash => self.hash,
            TypespaceTrait::Ord => self.ord,
            TypespaceTrait::PartialEq => self.partial_eq,
            TypespaceTrait::PartialOrd => self.partial_ord,
            TypespaceTrait::Default => self.default,
        }
    }

    /// Replace what the table says about `t`.
    pub fn set(&mut self, t: TypespaceTrait, p: TraitProvision)
        ensures
            forall|u: TypespaceTrait| #[trigger] final(self).at(u) == if u == t {
                p
            } else {
                old(self).at(u)
            },
    {
        match t {
            TypespaceTrait::Deserialize => self.deserialize = p,
            TypespaceTrait::Serialize => self.serialize = p,
            TypespaceTrait::Clone => self.clone = p,
            TypespaceTrait::Debug => self.debug = p,
            TypespaceTrait::JsonSchema => self.json_schema = p,
            TypespaceTrait::Display => self.display = p,
            TypespaceTrait::FromStr => self.from_str = p,
            TypespaceTrait::Eq => self.eq = p,
            TypespaceTrait::Hash => self.hash = p,
            TypespaceTrait::Ord => self.ord = p,
            TypespaceTrait::PartialEq => self.partial_eq = p,
            TypespaceTrait::PartialOrd => self.partial_ord = p,
            TypespaceTrait::Default => self.default = p,
        }
    }

    /// A table naming the traits never provided and those provided
    /// unconditionally; every other trait is conditional on the
    /// parameters. A trait in both lists is never provided.
    pub fn new(never: &[TypespaceTrait], always: &[TypespaceTrait]) -> (table: Self)
        ensures
            forall|t: TypespaceTrait| #[trigger] table.at(t) == table_entry(never@, always@, t),
    {
        let mut table = ProvisionTable::uniform(TraitProvision::IfParameters);
        let mut i: usize = 0;
        while i < always.len()
            invariant
                i <= always@.len(),
                forall|t: TypespaceTrait| #[trigger] table.at(t) == if always@.subrange(0, i as int).contains(t) {
                    TraitProvision::Always
                } else {
                    TraitProvision::IfParameters
                },
            decreases always@.len() - i,
        {
            table.set(always[i], TraitProvision::Always);
            proof {
                assert forall|t: TypespaceTrait| always@.subrange(0, i + 1).contains(t) == (always@.subrange(0, i as int).contains(t) || t == always@[i as int]) by {
                    if always@.subrange(0, i + 1).contains(t) {
                        let k = choose|k: int| 0 <= k < i + 1 && #[trigger] always@.subrange(0, i + 1)[k] == t;
                        if k < i {
                            assert(always@.subrange(0, i as int)[k] == t);
                        }
                    }
                    if always@.subrange(0, i as int).contains(t) {
                        let k = choose|k: int| 0 <= k < i && #[trigger] always@.subrange(0, i as int)[k] == t;
                        assert(always@.subrange(0, i + 1)[k] == t);
                    }
                    if t == always@[i as int] {
                        assert(always@.subrange(0, i + 1)[i as int] == t);
                    }
                }
            }
            i = i + 1;
        }
        assert(always@.subrange(0, always@.len() as int) =~= always@);
        let mut j: usize = 0;
        while j < never.len()
            invariant
                j <= never@.len(),
                forall|t: TypespaceTrait| #[trigger] table.at(t) == if never@.subrange(0, j as int).contains(t) {
                    TraitProvision::Never
                } else if always@.contains(t) {
                    TraitProvision::Always
                } else {
                    TraitProvision::IfParameters
                },
            decreases never@.len() - j,
        {
            table.set(never[j], TraitProvision::Never);
            proof {
                assert forall|t: TypespaceTrait| never@.subrange(0, j + 1).contains(t) == (never@.subrange(0, j as int).contains(t) || t == never@[j as int]) by {
                    if never@.subrange(0, j + 1).contains(t) {
                        let k = choose|k: int| 0 <= k < j + 1 && #[trigger] never@.subrange(0, j + 1)[k] == t;
                        if k < j {
                            assert(never@.subrange(0, j as int)[k] == t);
                        }
                    }
                    if never@.subrange(0, j as int).contains(t) {
                        let k = choose|k: int| 0 <= k < j && #[trigger] never@.subrange(0, j as int)[k] == t;
                        assert(never@.subrange(0, j + 1)[k] == t);
                    }
                    if t == never@[j as int] {
                        assert(never@.subrange(0, j + 1)[j as int] == t);
                    }
                }
            }
            j = j + 1;
        }
        assert(never@.subrange(0, never@.len() as int) =~= never@);
        table
    }

    /// The table claiming only what rendering assumes of any container:
    /// `Default` whatever the parameters do, and `Clone`, `Debug`,
    /// `Serialize`, and `Deserialize` when the parameters have them.
    pub fn opaque() -> (table: Self)
        ensures
            forall|t: TypespaceTrait| #[trigger] table.at(t) == opaque_entry(t),
    {
        let mut table = ProvisionTable::uniform(TraitProvision::Never);
        table.set(TypespaceTrait::Clone, TraitProvision::IfParameters);
        table.set(TypespaceTrait::Debug, TraitProvision::IfParameters);
        table.set(TypespaceTrait::Serialize, TraitProvision::IfParameters);
        table.set(TypespaceTrait::Deserialize, TraitProvision::IfParameters);
        table.set(TypespaceTrait::Default, TraitProvision::Always);
        table
    }

    /// The table with the per-trait answers of `provides` applied in
    /// order, a later answer for a trait replacing an earlier one.
    pub fn overridden(self, provides: &Vec<(TypespaceTrait, TraitProvision)>) -> (table: Self)
        ensures
            forall|t: TypespaceTrait| #[trigger] table.at(t) == override_at(provides@, t, self.at(t)),
    {
        let ghost base = self;
        let mut table = self;
        let mut i: usize = 0;
        while i < provides.len()
            invariant
                i <= provides@.len(),
                forall|t: TypespaceTrait| #[trigger] table.at(t) == override_at(provides@.take(i as int), t, base.at(t)),
            decreases provides@.len() - i,
        {
            let (t, p) = provides[i];
            table.set(t, p);
            proof {
                assert forall|u: TypespaceTrait| #[trigger] table.at(u) == override_at(provides@.take(i + 1), u, base.at(u)) by {
                    assert(provides@.take(i + 1).drop_last() =~= provides@.take(i as int));
                    assert(provides@.take(i + 1).last() == provides@[i as int]);
                }
            }
            i = i + 1;
        }
        proof {
            assert(provides@.take(provides@.len() as int) =~= provides@);
        }
        table
    }

    /// Every trait with what the table says about it, in declaration
    /// order.
    pub fn iter(&self) -> (v: Vec<(TypespaceTrait, TraitProvision)>)
        ensures
            v@.len() == 13,
            forall|i: int| 0 <= i < 13 ==> #[trigger] v@[i] == (trait_at(i), self.at(trait_at(i))),
    {
        let mut v: Vec<(TypespaceTrait, TraitProvision)> = Vec::new();
        let mut i: usize = 0;
        while i < TRAIT_COUNT
            invariant
                i <= 13,
                v@.len() == i,
                forall|k: int| 0 <= k < i ==> #[trigger] v@[k] == (trait_at(k), self.at(trait_at(k))),
            decreases 13 - i,
        {
            let t = trait_at_index(i);
            v.push((t, self.get(t)));
            i = i + 1;
        }
        v
    }
}

/// The entry [`ProvisionTable::new`] gives `t`.
pub open spec fn table_entry(never: Seq<TypespaceTrait>, always: Seq<TypespaceTrait>, t: TypespaceTrait) -> TraitProvision {
    if never.contains(t) {
        TraitProvision::Never
    } else if always.contains(t) {
        TraitProvision::Always
    } else {
        TraitProvision::IfParameters
    }
}

/// The entry [`ProvisionTable::opaque`] gives `t`.
pub open spec fn opaque_entry(t: TypespaceTrait) -> TraitProvision {
    match t {
        TypespaceTrait::Default => TraitProvision::Always,
        TypespaceTrait::Clone | TypespaceTrait::Debug | TypespaceTrait::Serialize
        | TypespaceTrait::Deserialize => TraitProvision::IfParameters,
        _ => TraitProvision::Never,
    }
}

/// A container type, what it demands of its parameters, and what it
/// implements.
///
/// The path is emitted verbatim, with the contained types as its generic
/// arguments. The obligations are what the container demands of those
/// parameters; the provisions say, for each trait, whether the container
/// never implements it, implements it unconditionally, or implements it
/// only when every parameter does.
#[derive(Debug, Clone)]
pub struct ContainerType {
    path: String,
    prelude_path: Option<String>,
    obligations: Vec<TypespaceTraitSet>,
    provisions: ProvisionTable,
}

/// The traits an ordered-lookup container demands of its key or element
/// type.
pub open spec fn ordered_lookup_set() -> Set<TypespaceTrait> {
    set![TypespaceTrait::Eq, TypespaceTrait::PartialEq, TypespaceTrait::Ord, TypespaceTrait::PartialOrd]
}

/// The traits a hash-lookup container demands of its key or element type.
pub open spec fn hash_lookup_set() -> Set<TypespaceTrait> {
    set![TypespaceTrait::Eq, TypespaceTrait::PartialEq, TypespaceTrait::Hash]
}

/// The traits an ordered-lookup container (`BTreeMap`, or the ordered
/// treatment of sets) demands of its key or element type.
pub fn ordered_lookup_traits() -> (s: TypespaceTraitSet)
    ensures
        s@ == ordered_lookup_set(),
{
    let mut s = TypespaceTraitSet::empty();
    s.add(TypespaceTrait::Eq);
    s.add(TypespaceTrait::PartialEq);
    s.add(TypespaceTrait::Ord);
    s.add(TypespaceTrait::PartialOrd);
    assert(s@ =~= ordered_lookup_set());
    s
}

/// The traits a hash-lookup container (`HashMap`, `HashSet`) demands of
/// its key or element type.
pub fn hash_lookup_traits() -> (s: TypespaceTraitSet)
    ensures
        s@ == hash_lookup_set(),
{
    let mut s = TypespaceTraitSet::empty();
    s.add(TypespaceTrait::Eq);
    s.add(TypespaceTrait::PartialEq);
    s.add(TypespaceTrait::Hash);
    assert(s@ =~= hash_lookup_set());
    s
}

/// What an owning std container (`BTreeMap`, `BTreeSet`, `Vec`) never
/// implements: `Display` and `FromStr`.
pub open spec fn owning_never(t: TypespaceTrait) -> bool {
    t == TypespaceTrait::Display || t == TypespaceTrait::FromStr
}

/// What a hashing std container (`HashMap`, `HashSet`) never implements:
/// `Display`, `FromStr`, `Ord`, `PartialOrd`, and `Hash`.
pub open spec fn hashing_never(t: TypespaceTrait) -> bool {
    owning_never(t) || t == TypespaceTrait::Ord || t == TypespaceTrait::PartialOrd || t
        == TypespaceTrait::Hash
}

/// The provisions of a container that implements `Default` whatever its
/// parameters are, never implements what `never` names, and otherwise
/// follows its parameters.
pub open spec fn default_table_entry(never: bool, t: TypespaceTrait) -> TraitProvision {
    if never {
        TraitProvision::Never
    } else if t == TypespaceTrait::Default {
        TraitProvision::Always
    } else {
        TraitProvision::IfParameters
    }
}

/// The container presets, by name.
#[derive(Debug, Clone, Copy)]
pub enum ContainerKind {
    BtreeMap,
    HashMap,
    Vec,
    Option,
    BtreeSet,
    HashSet,
}

/// `c` is the preset that `kind` names.
pub open spec fn is_preset(c: ContainerType, kind: ContainerKind) -> bool {
    match kind {
        ContainerKind::BtreeMap => {
            &&& c.path_of() == "::std::collections::BTreeMap"@
            &&& c.prelude_of() is None
            &&& c.obligations_of().len() == 2
            &&& c.obligations_of()[0]@ == ordered_lookup_set()
            &&& c.obligations_of()[1]@ == Set::<TypespaceTrait>::empty()
            &&& forall|t: TypespaceTrait| #[trigger] c.provision_of(t) == owning_entry(t)
        },
        ContainerKind::HashMap => {
            &&& c.path_of() == "::std::collections::HashMap"@
            &&& c.prelude_of() is None
            &&& c.obligations_of().len() == 2
            &&& c.obligations_of()[0]@ == hash_lookup_set()
            &&& c.obligations_of()[1]@ == Set::<TypespaceTrait>::empty()
            &&& forall|t: TypespaceTrait| #[trigger] c.provision_of(t) == hashing_entry(t)
        },
        ContainerKind::Vec => {
            &&& c.path_of() == "::std::vec::Vec"@
            &&& c.prelude_of() == Some("Vec"@)
            &&& c.obligations_of().len() == 1
            &&& c.obligations_of()[0]@ == Set::<TypespaceTrait>::empty()
            &&& forall|t: TypespaceTrait| #[trigger] c.provision_of(t) == owning_entry(t)
        },
        ContainerKind::Option => {
            &&& c.path_of() == "::std::option::Option"@
            &&& c.prelude_of() == Some("Option"@)
            &&& c.obligations_of().len() == 1
            &&& c.obligations_of()[0]@ == Set::<TypespaceTrait>::empty()
            &&& forall|t: TypespaceTrait| #[trigger] c.provision_of(t) == owning_entry(t)
        },
        ContainerKind::BtreeSet => {
            &&& c.path_of() == "::std::collections::BTreeSet"@
            &&& c.prelude_of() is None
            &&& c.obligations_of().len() == 1
            &&& c.obligations_of()[0]@ == ordered_lookup_set()
            &&& forall|t: TypespaceTrait| #[trigger] c.provision_of(t) == owning_entry(t)
        },
        ContainerKind::HashSet => {
            &&& c.path_of() == "::std::collections::HashSet"@
            &&& c.prelude_of() is None
            &&& c.obligations_of().len() == 1
            &&& c.obligations_of()[0]@ == hash_lookup_set()
            &&& forall|t: TypespaceTrait| #[trigger] c.provision_of(t) == hashing_entry(t)
        },
    }
}

impl ContainerKind {
    /// The declaration this name selects.
    pub fn preset(&self) -> (c: ContainerType)
        ensures
            is_preset(c, *self),
    {
        match self {
            ContainerKind::BtreeMap => ContainerType::btree_map(),
            ContainerKind::HashMap => ContainerType::hash_map(),
            ContainerKind::Vec => ContainerType::vec(),
            ContainerKind::Option => ContainerType::option(),
            ContainerKind::BtreeSet => ContainerType::btree_set(),
            ContainerKind::HashSet => ContainerType::hash_set(),
        }
    }
}

/// The declared form of a [`ContainerType`], as a configuration states
/// it: the preset it starts from, a replacement path, replacement
/// obligations, and per-trait answers.
#[derive(Debug, Clone)]
pub struct ContainerTypeRepr {
    pub like: Option<ContainerKind>,
    pub path: Option<String>,
    pub obligations: Option<Vec<TypespaceTraitSet>>,
    pub provides: Vec<(TypespaceTrait, TraitProvision)>,
}

/// `c` is what declaration `repr` assembles.
pub open spec fn declared_as(repr: ContainerTypeRepr, c: ContainerType) -> bool {
    match repr.like {
        Some(kind) => exists|b: ContainerType|
            #[trigger] is_preset(b, kind) && c.path_of() == (match repr.path {
                Some(p) => p@,
                None => b.path_of(),
            }) && c.prelude_of() == (if repr.path is Some {
                None
            } else {
                b.prelude_of()
            }) && c.obligations_of() == (match repr.obligations {
                Some(o) => o@,
                None => b.obligations_of(),
            }) && forall|t: TypespaceTrait| #[trigger] c.provision_of(t) == override_at(repr.provides@, t, b.provision_of(t)),
        None => {
            &&& c.path_of() == repr.path->0@
            &&& c.prelude_of() is None
            &&& c.obligations_of() == repr.obligations->0@
            &&& forall|t: TypespaceTrait| #[trigger] c.provision_of(t) == override_at(repr.provides@, t, opaque_entry(t))
        },
    }
}

/// What `ps` answers for `t`, its last entry for `t` winning, or `base`
/// when it has none.
pub open spec fn override_at(
    ps: Seq<(TypespaceTrait, TraitProvision)>,
    t: TypespaceTrait,
    base: TraitProvision,
) -> TraitProvision
    decreases ps.len(),
{
    if ps.len() == 0 {
        base
    } else if ps.last().0 == t {
        ps.last().1
    } else {
        override_at(ps.drop_last(), t, base)
    }
}

/// The provisions of an owning std container (`Vec`, `Option`,
/// `BTreeMap`, `BTreeSet`).
pub open spec fn owning_entry(t: TypespaceTrait) -> TraitProvision {
    default_table_entry(owning_never(t), t)
}

/// The provisions of a hashing std container (`HashMap`, `HashSet`).
pub open spec fn hashing_entry(t: TypespaceTrait) -> TraitProvision {
    default_table_entry(hashing_never(t), t)
}

fn owning_table() -> (table: ProvisionTable)
    ensures
        forall|t: TypespaceTrait| #[trigger] table.at(t) == owning_entry(t),
{
    let mut table = ProvisionTable::uniform(TraitProvision::IfParameters);
    table.set(TypespaceTrait::Default, TraitProvision::Always);
    table.set(TypespaceTrait::Display, TraitProvision::Never);
    table.set(TypespaceTrait::FromStr, TraitProvision::Never);
    table
}

fn hashing_table() -> (table: ProvisionTable)
    ensures
        forall|t: TypespaceTrait| #[trigger] table.at(t) == hashing_entry(t),
{
    let mut table = owning_table();
    table.set(TypespaceTrait::Ord, TraitProvision::Never);
    table.set(TypespaceTrait::PartialOrd, TraitProvision::Never);
    table.set(TypespaceTrait::Hash, TraitProvision::Never);
    table
}

impl ContainerType {
    /// The path the container renders as.
    pub closed spec fn path_of(self) -> Seq<char> {
        self.path@
    }

    /// The prelude shortcut rendered under [`Std::Unqualified`], if any.
    pub closed spec fn prelude_of(self) -> Option<Seq<char>> {
        match self.prelude_path {
            Some(p) => Some(p@),
            None => None,
        }
    }

    /// What the container demands of each of its type parameters.
    pub closed spec fn obligations_of(self) -> Seq<TypespaceTraitSet> {
        self.obligations@
    }

    /// What the container implements for `t`.
    pub closed spec fn provision_of(self, t: TypespaceTrait) -> TraitProvision {
        self.provisions.at(t)
    }

    fn from_parts(path: String, obligations: Vec<TypespaceTraitSet>, provisions: ProvisionTable) -> (c: Self)
        ensures
            c.path_of() == path@,
            c.prelude_of() is None,
            c.obligations_of() == obligations@,
            forall|t: TypespaceTrait| #[trigger] c.provision_of(t) == provisions.at(t),
    {
        ContainerType { path, prelude_path: None, obligations, provisions }
    }

    /// A container at `path` demanding `obligations` of its type
    /// parameters, whose behavior is otherwise what rendering assumes:
    /// `Default` unconditional, `Clone`, `Debug`, `Serialize`, and
    /// `Deserialize` following the parameters, and no other trait.
    pub fn new(path: &str, obligations: Vec<TypespaceTraitSet>) -> (c: Self)
        requires
            spec_parses_as_type(path@),
        ensures
            c.path_of() == path@,
            c.prelude_of() is None,
            c.obligations_of() == obligations@,
            forall|t: TypespaceTrait| #[trigger] c.provision_of(t) == opaque_entry(t),
    {
        ContainerType::from_parts(path.to_owned(), obligations, ProvisionTable::opaque())
    }

    /// [`ContainerType::new`], or `None` when the path does not parse as
    /// a Rust type.
    pub fn try_new(path: &str, obligations: Vec<TypespaceTraitSet>) -> (r: Option<Self>)
        ensures
            r is Some <==> spec_parses_as_type(path@),
            r matches Some(c) ==> {
                &&& c.path_of() == path@
                &&& c.prelude_of() is None
                &&& c.obligations_of() == obligations@
                &&& forall|t: TypespaceTrait| #[trigger] c.provision_of(t) == opaque_entry(t)
            },
    {
        if parses_as_type(path) {
            Some(ContainerType::new(path, obligations))
        } else {
            None
        }
    }

    /// `::std::collections::BTreeMap` and containers that behave as it
    /// does: keys must be ordered, and every trait but `Display` and
    /// `FromStr` follows the parameters, with `Default` unconditional.
    pub fn btree_map() -> (c: Self)
        ensures
            c.path_of() == "::std::collections::BTreeMap"@,
            c.prelude_of() is None,
            c.obligations_of().len() == 2,
            c.obligations_of()[0]@ == ordered_lookup_set(),
            c.obligations_of()[1]@ == Set::<TypespaceTrait>::empty(),
            forall|t: TypespaceTrait| #[trigger] c.provision_of(t) == owning_entry(t),
    {
        let obligations = vec![ordered_lookup_traits(), TypespaceTraitSet::empty()];
        ContainerType::from_parts("::std::collections::BTreeMap".to_owned(), obligations, owning_table())
    }

    /// `::std::collections::HashMap` and containers that behave as it
    /// does: keys must be hashable, and the container has no `Ord`,
    /// `PartialOrd`, or `Hash` impl at any key or value type.
    pub fn hash_map() -> (c: Self)
        ensures
            c.path_of() == "::std::collections::HashMap"@,
            c.prelude_of() is None,
            c.obligations_of().len() == 2,
            c.obligations_of()[0]@ == hash_lookup_set(),
            c.obligations_of()[1]@ == Set::<TypespaceTrait>::empty(),
            forall|t: TypespaceTrait| #[trigger] c.provision_of(t) == hashing_entry(t),
    {
        let obligations = vec![hash_lookup_traits(), TypespaceTraitSet::empty()];
        ContainerType::from_parts("::std::collections::HashMap".to_owned(), obligations, hashing_table())
    }

    /// `Vec` and containers that behave as it does: nothing is demanded
    /// of the element type, and every trait but `Display` and `FromStr`
    /// follows the element, with `Default` unconditional.
    pub fn vec() -> (c: Self)
        ensures
            c.path_of() == "::std::vec::Vec"@,
            c.obligations_of().len() == 1,
            c.obligations_of()[0]@ == Set::<TypespaceTrait>::empty(),
            c.prelude_of() == Some("Vec"@),
            forall|t: TypespaceTrait| #[trigger] c.provision_of(t) == owning_entry(t),
    {
        let obligations = vec![TypespaceTraitSet::empty()];
        ContainerType {
            path: "::std::vec::Vec".to_owned(),
            prelude_path: Some("Vec".to_owned()),
            obligations,
            provisions: owning_table(),
        }
    }

    /// `Option` and similar wrappers: nothing is demanded of the
    /// parameter, `Default` is unconditional, and every trait but
    /// `Display` and `FromStr` follows the parameter.
    pub fn option() -> (c: Self)
        ensures
            c.path_of() == "::std::option::Option"@,
            c.obligations_of().len() == 1,
            c.obligations_of()[0]@ == Set::<TypespaceTrait>::empty(),
            c.prelude_of() == Some("Option"@),
            forall|t: TypespaceTrait| #[trigger] c.provision_of(t) == owning_entry(t),
    {
        let obligations = vec![TypespaceTraitSet::empty()];
        ContainerType {
            path: "::std::option::Option".to_owned(),
            prelude_path: Some("Option".to_owned()),
            obligations,
            provisions: owning_table(),
        }
    }

    /// `::std::collections::BTreeSet` and containers that behave as it
    /// does: elements must be ordered, and the provisions are `Vec`'s.
    pub fn btree_set() -> (c: Self)
        ensures
            c.path_of() == "::std::collections::BTreeSet"@,
            c.prelude_of() is None,
            c.obligations_of().len() == 1,
            c.obligations_of()[0]@ == ordered_lookup_set(),
            forall|t: TypespaceTrait| #[trigger] c.provision_of(t) == owning_entry(t),
    {
        let obligations = vec![ordered_lookup_traits()];
        ContainerType::from_parts("::std::collections::BTreeSet".to_owned(), obligations, owning_table())
    }

    /// `::std::collections::HashSet` and containers that behave as it
    /// does: elements must be hashable, and the container has no `Ord`,
    /// `PartialOrd`, or `Hash` impl at any element type.
    pub fn hash_set() -> (c: Self)
        ensures
            c.path_of() == "::std::collections::HashSet"@,
            c.prelude_of() is None,
            c.obligations_of().len() == 1,
            c.obligations_of()[0]@ == hash_lookup_set(),
            forall|t: TypespaceTrait| #[trigger] c.provision_of(t) == hashing_entry(t),
    {
        let obligations = vec![hash_lookup_traits()];
        ContainerType::from_parts("::std::collections::HashSet".to_owned(), obligations, hashing_table())
    }

    /// The path the container renders as.
    pub fn path(&self) -> (r: &str)
        ensures
            r@ == self.path_of(),
    {
        self.path.as_str()
    }

    /// What the container demands of each of its type parameters, in
    /// parameter order.
    pub fn obligations(&self) -> (r: &[TypespaceTraitSet])
        ensures
            r@ == self.obligations_of(),
    {
        self.obligations.as_slice()
    }

    /// What the container demands of the type parameter at `index`.
    pub fn obligation(&self, index: usize) -> (r: &TypespaceTraitSet)
        requires
            index < self.obligations_of().len(),
        ensures
            *r == self.obligations_of()[index as int],
    {
        &self.obligations[index]
    }

    /// What the container implements for `t`.
    pub fn provision(&self, t: TypespaceTrait) -> (p: TraitProvision)
        ensures
            p == self.provision_of(t),
    {
        self.provisions.get(t)
    }

    /// Every trait with what the container implements for it, in
    /// declaration order.
    pub fn provisions(&self) -> (v: Vec<(TypespaceTrait, TraitProvision)>)
        ensures
            v@.len() == 13,
            forall|i: int| 0 <= i < 13 ==> #[trigger] v@[i] == (trait_at(i), self.provision_of(trait_at(i))),
    {
        self.provisions.iter()
    }

    /// Set the path the container renders as, keeping what it demands and
    /// implements; a configured path has no prelude shortcut.
    pub fn with_path(self, path: &str) -> (c: Self)
        requires
            spec_parses_as_type(path@),
        ensures
            c.path_of() == path@,
            c.prelude_of() is None,
            c.obligations_of() == self.obligations_of(),
            forall|t: TypespaceTrait| #[trigger] c.provision_of(t) == self.provision_of(t),
    {
        ContainerType { path: path.to_owned(), prelude_path: None, ..self }
    }

    /// [`ContainerType::with_path`], or `None` when the path does not
    /// parse as a Rust type.
    pub fn try_with_path(self, path: &str) -> (r: Option<Self>)
        ensures
            r is Some <==> spec_parses_as_type(path@),
            r matches Some(c) ==> {
                &&& c.path_of() == path@
                &&& c.prelude_of() is None
                &&& c.obligations_of() == self.obligations_of()
                &&& forall|t: TypespaceTrait| #[trigger] c.provision_of(t) == self.provision_of(t)
            },
    {
        if parses_as_type(path) {
            Some(self.with_path(path))
        } else {
            None
        }
    }

    /// Set what the container demands of each of its type parameters.
    pub fn with_obligations(self, obligations: Vec<TypespaceTraitSet>) -> (c: Self)
        ensures
            c.path_of() == self.path_of(),
            c.prelude_of() == self.prelude_of(),
            c.obligations_of() == obligations@,
            forall|t: TypespaceTrait| #[trigger] c.provision_of(t) == self.provision_of(t),
    {
        ContainerType { obligations, ..self }
    }

    /// Set what the container implements for one trait.
    pub fn with_provision(self, t: TypespaceTrait, provision: TraitProvision) -> (c: Self)
        ensures
            c.path_of() == self.path_of(),
            c.prelude_of() == self.prelude_of(),
            c.obligations_of() == self.obligations_of(),
            forall|u: TypespaceTrait| #[trigger] c.provision_of(u) == if u == t {
                provision
            } else {
                self.provision_of(u)
            },
    {
        let mut provisions = self.provisions;
        provisions.set(t, provision);
        ContainerType { provisions, ..self }
    }

    /// Replace what the container implements, stated as exceptions:
    /// traits in `always` have an impl whatever the parameters are, traits
    /// in `never` have no impl at any parameter, and every other trait
    /// follows the parameters.
    pub fn with_provisions(self, always: &[TypespaceTrait], never: &[TypespaceTrait]) -> (c: Self)
        ensures
            c.path_of() == self.path_of(),
            c.prelude_of() == self.prelude_of(),
            c.obligations_of() == self.obligations_of(),
            forall|t: TypespaceTrait| #[trigger] c.provision_of(t) == table_entry(never@, always@, t),
    {
        ContainerType { provisions: ProvisionTable::new(never, always), ..self }
    }

    /// Apply the per-trait answers of a declaration, in order.
    pub fn with_provision_overrides(self, provides: &Vec<(TypespaceTrait, TraitProvision)>) -> (c: Self)
        ensures
            c.path_of() == self.path_of(),
            c.prelude_of() == self.prelude_of(),
            c.obligations_of() == self.obligations_of(),
            forall|t: TypespaceTrait| #[trigger] c.provision_of(t) == override_at(provides@, t, self.provision_of(t)),
    {
        let provisions = self.provisions.overridden(provides);
        ContainerType { provisions, ..self }
    }

    /// Assemble a container from its declaration.
    ///
    /// A declaration names the preset it behaves as (`like`), in which
    /// case a path or obligations it states replace the preset's; or it
    /// states its own path and obligations and claims only what rendering
    /// assumes of any container. Its per-trait answers then replace the
    /// table's. A path that does not parse as a Rust type, or a
    /// declaration with neither a preset nor both a path and obligations,
    /// is refused with a message.
    pub fn try_from_repr(repr: ContainerTypeRepr) -> (r: Result<Self, String>)
        ensures
            r is Err <==> (repr.path matches Some(p) && !spec_parses_as_type(p@)) || (repr.like is None && (
            repr.path is None || repr.obligations is None)),
            r matches Ok(c) ==> declared_as(repr, c),
    {
        let ContainerTypeRepr { like, path, obligations, provides } = repr;
        match &path {
            Some(p) => match type_parse_error(p.as_str()) {
                Some(err) => {
                    let message = "invalid container type ".to_owned().concat(quoted(p.as_str()).as_str()).concat(
                        ": ",
                    ).concat(err.as_str());
                    return Err(message);
                },
                None => {},
            },
            None => {},
        }
        let declared = match like {
            Some(kind) => {
                let preset = kind.preset();
                let with_path = match path {
                    Some(p) => preset.with_path(p.as_str()),
                    None => preset,
                };
                match obligations {
                    Some(o) => with_path.with_obligations(o),
                    None => with_path,
                }
            },
            None => match (path, obligations) {
                (Some(p), Some(o)) => ContainerType::new(p.as_str(), o),
                _ => {
                    return Err(
                        "a container declaration states the preset it behaves as with `like`, or states its own `path` and `obligations`".to_owned(),
                    );
                },
            },
        };
        Ok(declared.with_provision_overrides(&provides))
    }

    /// The path to render under the configured [`Std`] syntax.
    pub fn rendered_path(&self, std: &Std) -> (r: &str)
        ensures
            r@ == match (*std, self.prelude_of()) {
                (Std::Unqualified, Some(p)) => p,
                _ => self.path_of(),
            },
    {
        match (std, &self.prelude_path) {
            (Std::Unqualified, Some(p)) => p.as_str(),
            _ => self.path.as_str(),
        }
    }
}

/// Specify the syntax used to render types in the `std` crate's prelude.
#[derive(Debug, Clone, Copy, PartialEq, Eq, Structural)]
pub enum Std {
    /// Fully qualify prelude types: `Option` renders as
    /// `::std::option::Option`.
    FullyQualified,
    /// Render prelude types in their typical, auto-imported form.
    Unqualified,
}

/// Specify the modeling of values that may be either `null` or absent.
#[derive(Debug, Clone)]
pub enum OptionalNullable {
    /// Model both as `Option<T>`; skip serialization of `None`.
    ConflateAsAbsent,
    /// Model both as `Option<T>`; serialize `None` as `null`.
    ConflateAsNull,
    /// Use `Option<Option<T>>`.
    DoubleOption,
    /// Use a custom tri-state wrapper, declared as a container.
    CustomType(ContainerType),
}

/// A crate generated code references by path.
#[derive(Debug, Clone, Copy, PartialEq, Eq, Structural, PartialOrd, Ord)]
pub enum GeneratedCrate {
    Serde,
    SerdeJson,
    Schemars,
    JsonSerde,
    Regress,
}

impl GeneratedCrate {
    /// The path the crate renders under with no override configured.
    pub fn canonical_text(&self) -> (r: &'static str)
        ensures
            r == canonical_crate_text(*self),
    {
        match self {
            GeneratedCrate::Serde => "::serde",
            GeneratedCrate::SerdeJson => "::serde_json",
            GeneratedCrate::Schemars => "::schemars",
            GeneratedCrate::JsonSerde => "::json_serde",
            GeneratedCrate::Regress => "::regress",
        }
    }
}

/// The path a crate renders under with no override configured.
pub open spec fn canonical_crate_text(krate: GeneratedCrate) -> &'static str {
    match krate {
        GeneratedCrate::Serde => "::serde",
        GeneratedCrate::SerdeJson => "::serde_json",
        GeneratedCrate::Schemars => "::schemars",
        GeneratedCrate::JsonSerde => "::json_serde",
        GeneratedCrate::Regress => "::regress",
    }
}

/// Overriding paths for the crates generated code references.
#[derive(Debug, Clone)]
pub struct CratePaths {
    serde: Option<String>,
    serde_json: Option<String>,
    schemars: Option<String>,
    json_serde: Option<String>,
    regress: Option<String>,
}

impl CratePaths {
    /// The configured override for `krate`.
    pub closed spec fn override_of(self, krate: GeneratedCrate) -> Option<Seq<char>> {
        let slot = match krate {
            GeneratedCrate::Serde => self.serde,
            GeneratedCrate::SerdeJson => self.serde_json,
            GeneratedCrate::Schemars => self.schemars,
            GeneratedCrate::JsonSerde => self.json_serde,
            GeneratedCrate::Regress => self.regress,
        };
        match slot {
            Some(p) => Some(p@),
            None => None,
        }
    }

    /// No overrides.
    pub fn new() -> (c: Self)
        ensures
            forall|k: GeneratedCrate| #[trigger] c.override_of(k) is None,
    {
        CratePaths { serde: None, serde_json: None, schemars: None, json_serde: None, regress: None }
    }

    /// The configured path for `krate`, or `None` for the canonical path.
    pub fn get(&self, krate: GeneratedCrate) -> (r: Option<&str>)
        ensures
            match self.override_of(krate) {
                None => r is None,
                Some(p) => r is Some && r->0@ == p,
            },
    {
        let slot = match krate {
            GeneratedCrate::Serde => &self.serde,
            GeneratedCrate::SerdeJson => &self.serde_json,
            GeneratedCrate::Schemars => &self.schemars,
            GeneratedCrate::JsonSerde => &self.json_serde,
            GeneratedCrate::Regress => &self.regress,
        };
        match slot {
            Some(p) => Some(p.as_str()),
            None => None,
        }
    }

    /// The path text `krate` renders as.
    pub fn text(&self, krate: GeneratedCrate) -> (r: &str)
        ensures
            r@ == match self.override_of(krate) {
                Some(p) => p,
                None => canonical_crate_text(krate)@,
            },
    {
        match self.get(krate) {
            Some(p) => p,
            None => krate.canonical_text(),
        }
    }

    /// Override the path `krate` renders under.
    pub fn set(&mut self, krate: GeneratedCrate, path: &str)
        requires
            spec_parses_as_plain_path(path@),
        ensures
            forall|k: GeneratedCrate| #[trigger] final(self).override_of(k) == if k == krate {
                Some(path@)
            } else {
                old(self).override_of(k)
            },
    {
        let p = Some(path.to_owned());
        match krate {
            GeneratedCrate::Serde => self.serde = p,
            GeneratedCrate::SerdeJson => self.serde_json = p,
            GeneratedCrate::Schemars => self.schemars = p,
            GeneratedCrate::JsonSerde => self.json_serde = p,
            GeneratedCrate::Regress => self.regress = p,
        }
    }
}

/// The path the last of `es` for crate `k` states, or `None` when none
/// does.
pub open spec fn last_override(es: Seq<(GeneratedCrate, String)>, k: GeneratedCrate) -> Option<Seq<char>>
    decreases es.len(),
{
    if es.len() == 0 {
        None
    } else if es.last().0 == k {
        Some(es.last().1@)
    } else {
        last_override(es.drop_last(), k)
    }
}

/// Check a crate path override: it must parse as a Rust type made of
/// `::`-separated segments with no generic arguments, so that attribute
/// strings built from it keep the form the canonical paths have. A path
/// that is not one is refused with a message naming it.
pub fn parse_plain_path(path: &str) -> (r: Result<(), String>)
    ensures
        r is Ok <==> spec_parses_as_type(path@) && spec_parses_as_plain_path(path@),
{
    match type_parse_error(path) {
        Some(err) => {
            return Err("invalid crate path ".to_owned().concat(quoted(path).as_str()).concat(": ").concat(err.as_str()));
        },
        None => {},
    }
    if parses_as_plain_path(path) {
        Ok(())
    } else {
        Err(
            "invalid crate path ".to_owned().concat(quoted(path).as_str()).concat(
                ": expected plain ::-separated segments",
            ),
        )
    }
}

impl CratePaths {
    /// Overrides from `(crate, path)` entries, a later entry for a crate
    /// replacing an earlier one; an entry whose path is not a plain path
    /// is refused with a message.
    pub fn try_from_entries(entries: Vec<(GeneratedCrate, String)>) -> (r: Result<Self, String>)
        ensures
            r is Ok <==> forall|i: int|
                0 <= i < entries@.len() ==> spec_parses_as_type((#[trigger] entries@[i]).1@) && spec_parses_as_plain_path(
                    entries@[i].1@,
                ),
            r matches Ok(c) ==> forall|k: GeneratedCrate| #[trigger] c.override_of(k) == last_override(entries@, k),
    {
        let mut paths = CratePaths::new();
        let mut i: usize = 0;
        while i < entries.len()
            invariant
                i <= entries@.len(),
                forall|j: int|
                    0 <= j < i ==> spec_parses_as_type((#[trigger] entries@[j]).1@) && spec_parses_as_plain_path(
                        entries@[j].1@,
                    ),
                forall|k: GeneratedCrate| #[trigger] paths.override_of(k) == last_override(entries@.take(i as int), k),
            decreases entries@.len() - i,
        {
            let (krate, path) = &entries[i];
            match parse_plain_path(path.as_str()) {
                Err(message) => {
                    return Err(message);
                },
                Ok(()) => {},
            }
            paths.set(*krate, path.as_str());
            proof {
                assert forall|k: GeneratedCrate| #[trigger] paths.override_of(k) == last_override(entries@.take(i + 1), k) by {
                    assert(entries@.take(i + 1).drop_last() =~= entries@.take(i as int));
                    assert(entries@.take(i + 1).last() == entries@[i as int]);
                }
            }
            i = i + 1;
        }
        proof {
            assert(entries@.take(entries@.len() as int) =~= entries@);
        }
        Ok(paths)
    }
}

/// Modify how types are processed and generated.
///
/// Start from one of the presets--[`Settings::minimal`],
/// [`Settings::typical`], or [`Settings::maximal`]--and adjust with the
/// `with_` methods.
#[derive(Debug, Clone)]
#[non_exhaustive]
pub struct Settings {
    /// How types in the `std` prelude are rendered.
    pub std: Std,
    /// How values that may be `null` or absent are represented.
    pub optional_nullable: OptionalNullable,
    /// The container a map renders as.
    pub map_type: ContainerType,
    /// The container a set renders as.
    pub set_type: ContainerType,
    /// The container a vec renders as.
    pub vec_type: ContainerType,
    /// Traits every named type is required to implement.
    pub required_traits: TypespaceTraitSet,
    /// Traits every type implements when possible.
    pub desired_traits: TypespaceTraitSet,
    /// Opaque derive paths included in every derive attribute.
    pub extra_derives: Vec<String>,
    /// Opaque attributes included in every type.
    pub extra_attrs: Vec<String>,
    /// Generate a builder for struct types.
    pub struct_builder: bool,
    /// Overriding paths for the crates generated code references.
    pub crate_paths: CratePaths,
    /// Imitate typify's renderer where the two differ.
    pub typify_compat: bool,
}

/// The settings-independent part every preset shares: the built-in
/// containers, fully qualified prelude types, and nothing extra.
pub open spec fn preset_base(s: Settings) -> bool {
    &&& s.std == Std::FullyQualified
    &&& s.optional_nullable is ConflateAsAbsent
    &&& s.map_type.obligations_of().len() == 2
    &&& s.map_type.obligations_of()[0]@ == ordered_lookup_set()
    &&& s.map_type.obligations_of()[1]@ == Set::<TypespaceTrait>::empty()
    &&& forall|t: TypespaceTrait| #[trigger] s.map_type.provision_of(t) == owning_entry(t)
    &&& s.set_type.obligations_of().len() == 1
    &&& s.set_type.obligations_of()[0]@ == ordered_lookup_set()
    &&& forall|t: TypespaceTrait| #[trigger] s.set_type.provision_of(t) == owning_entry(t)
    &&& s.vec_type.obligations_of().len() == 1
    &&& s.vec_type.obligations_of()[0]@ == Set::<TypespaceTrait>::empty()
    &&& forall|t: TypespaceTrait| #[trigger] s.vec_type.provision_of(t) == owning_entry(t)
    &&& s.map_type.path_of() == "::std::collections::BTreeMap"@
    &&& s.map_type.prelude_of() is None
    &&& s.set_type.path_of() == "::std::vec::Vec"@
    &&& s.set_type.prelude_of() == Some("Vec"@)
    &&& s.vec_type.path_of() == "::std::vec::Vec"@
    &&& s.vec_type.prelude_of() == Some("Vec"@)
    &&& s.extra_derives@.len() == 0
    &&& s.extra_attrs@.len() == 0
    &&& forall|k: GeneratedCrate| #[trigger] s.crate_paths.override_of(k) is None
    &&& !s.typify_compat
}

/// The traits the typical preset requires.
pub open spec fn typical_required() -> Set<TypespaceTrait> {
    set![TypespaceTrait::Clone, TypespaceTrait::Debug, TypespaceTrait::Serialize, TypespaceTrait::Deserialize]
}

/// The traits the maximal preset desires.
pub open spec fn maximal_desired() -> Set<TypespaceTrait> {
    set![
        TypespaceTrait::Display,
        TypespaceTrait::FromStr,
        TypespaceTrait::Eq,
        TypespaceTrait::PartialEq,
        TypespaceTrait::Ord,
        TypespaceTrait::PartialOrd,
        TypespaceTrait::Hash,
        TypespaceTrait::Default,
    ]
}

impl Settings {
    /// Nothing asked of a generated type: no trait is required or
    /// desired, no extra derive or attribute is added, and a struct gets
    /// no builder. A map is a `BTreeMap`, and a set and a vec are both a
    /// `Vec`, with the set demanding ordered lookup of its elements.
    pub fn minimal() -> (s: Self)
        ensures
            preset_base(s),
            s.required_traits@ == Set::<TypespaceTrait>::empty(),
            s.desired_traits@ == Set::<TypespaceTrait>::empty(),
            !s.struct_builder,
    {
        let set_type = ContainerType::vec().with_obligations(vec![ordered_lookup_traits()]);
        Settings {
            std: Std::FullyQualified,
            optional_nullable: OptionalNullable::ConflateAsAbsent,
            map_type: ContainerType::btree_map(),
            set_type,
            vec_type: ContainerType::vec(),
            required_traits: TypespaceTraitSet::empty(),
            desired_traits: TypespaceTraitSet::empty(),
            extra_derives: Vec::new(),
            extra_attrs: Vec::new(),
            struct_builder: false,
            crate_paths: CratePaths::new(),
            typify_compat: false,
        }
    }

    /// What generated code usually wants: `Clone`, `Debug`, `Serialize`,
    /// and `Deserialize` required of every named type, and a builder for
    /// each struct.
    pub fn typical() -> (s: Self)
        ensures
            preset_base(s),
            s.required_traits@ == typical_required(),
            s.desired_traits@ == Set::<TypespaceTrait>::empty(),
            s.struct_builder,
    {
        let mut required = TypespaceTraitSet::empty();
        required.add(TypespaceTrait::Clone);
        required.add(TypespaceTrait::Debug);
        required.add(TypespaceTrait::Serialize);
        required.add(TypespaceTrait::Deserialize);
        assert(required@ =~= typical_required());
        let base = Settings::minimal();
        Settings { required_traits: required, struct_builder: true, ..base }
    }

    /// Every trait typespace knows about, required or desired: what
    /// [`Settings::typical`] requires plus `JsonSchema`, and every other
    /// trait desired.
    pub fn maximal() -> (s: Self)
        ensures
            preset_base(s),
            s.required_traits@ == typical_required().insert(TypespaceTrait::JsonSchema),
            s.desired_traits@ == maximal_desired(),
            s.struct_builder,
    {
        let mut required = TypespaceTraitSet::empty();
        required.add(TypespaceTrait::Clone);
        required.add(TypespaceTrait::Debug);
        required.add(TypespaceTrait::Serialize);
        required.add(TypespaceTrait::Deserialize);
        required.add(TypespaceTrait::JsonSchema);
        assert(required@ =~= typical_required().insert(TypespaceTrait::JsonSchema));
        let mut desired = TypespaceTraitSet::empty();
        desired.add(TypespaceTrait::Display);
        desired.add(TypespaceTrait::FromStr);
        desired.add(TypespaceTrait::Eq);
        desired.add(TypespaceTrait::PartialEq);
        desired.add(TypespaceTrait::Ord);
        desired.add(TypespaceTrait::PartialOrd);
        desired.add(TypespaceTrait::Hash);
        desired.add(TypespaceTrait::Default);
        assert(desired@ =~= maximal_desired());
        let base = Settings::typical();
        Settings { required_traits: required, desired_traits: desired, ..base }
    }

    /// Set the [`Std`] syntax used to render prelude types.
    pub fn with_std(self, std: Std) -> (s: Self)
        ensures
            s == (Settings { std, ..self }),
    {
        Settings { std, ..self }
    }

    /// Set how values that may be either `null` or absent are modeled.
    pub fn with_optional_nullable(self, optional_nullable: OptionalNullable) -> (s: Self)
        ensures
            s == (Settings { optional_nullable, ..self }),
    {
        Settings { optional_nullable, ..self }
    }

    /// Set the container a map renders as.
    pub fn with_map_type(self, map_type: ContainerType) -> (s: Self)
        ensures
            s == (Settings { map_type, ..self }),
    {
        Settings { map_type, ..self }
    }

    /// Set the container a set renders as.
    pub fn with_set_type(self, set_type: ContainerType) -> (s: Self)
        ensures
            s == (Settings { set_type, ..self }),
    {
        Settings { set_type, ..self }
    }

    /// Set the container a vec renders as.
    pub fn with_vec_type(self, vec_type: ContainerType) -> (s: Self)
        ensures
            s == (Settings { vec_type, ..self }),
    {
        Settings { vec_type, ..self }
    }

    /// Require every generated type to implement the given trait.
    pub fn with_required_trait(self, trait_impl: TypespaceTrait) -> (s: Self)
        ensures
            s.required_traits@ == self.required_traits@.insert(trait_impl),
            s == (Settings { required_traits: s.required_traits, ..self }),
    {
        let mut required = self.required_traits;
        required.add(trait_impl);
        Settings { required_traits: required, ..self }
    }

    /// Request every generated type implement the given trait if it is
    /// able to.
    pub fn with_desired_trait(self, trait_impl: TypespaceTrait) -> (s: Self)
        ensures
            s.desired_traits@ == self.desired_traits@.insert(trait_impl),
            s == (Settings { desired_traits: s.desired_traits, ..self }),
    {
        let mut desired = self.desired_traits;
        desired.add(trait_impl);
        Settings { desired_traits: desired, ..self }
    }

    /// Add a derived trait to every named type.
    pub fn with_derive(self, derive: &str) -> (s: Self)
        ensures
            s.extra_derives@.len() == self.extra_derives@.len() + 1,
            s.extra_derives@.drop_last() == self.extra_derives@,
            s.extra_derives@.last()@ == derive@,
            s == (Settings { extra_derives: s.extra_derives, ..self }),
    {
        let mut derives = self.extra_derives;
        derives.push(derive.to_owned());
        Settings { extra_derives: derives, ..self }
    }

    /// Specify an attribute that will precede every generated type.
    pub fn with_attr(self, attr: &str) -> (s: Self)
        ensures
            s.extra_attrs@.len() == self.extra_attrs@.len() + 1,
            s.extra_attrs@.drop_last() == self.extra_attrs@,
            s.extra_attrs@.last()@ == attr@,
            s == (Settings { extra_attrs: s.extra_attrs, ..self }),
    {
        let mut attrs = self.extra_attrs;
        attrs.push(attr.to_owned());
        Settings { extra_attrs: attrs, ..self }
    }

    /// Specify whether struct types should include an associated builder.
    pub fn with_struct_builder(self, struct_builder: bool) -> (s: Self)
        ensures
            s == (Settings { struct_builder, ..self }),
    {
        Settings { struct_builder, ..self }
    }

    /// Set the path generated code references one crate by.
    pub fn with_crate_path(self, krate: GeneratedCrate, path: &str) -> (s: Self)
        requires
            spec_parses_as_plain_path(path@),
        ensures
            forall|k: GeneratedCrate| #[trigger] s.crate_paths.override_of(k) == if k == krate {
                Some(path@)
            } else {
                self.crate_paths.override_of(k)
            },
            s == (Settings { crate_paths: s.crate_paths, ..self }),
    {
        let mut paths = self.crate_paths;
        paths.set(krate, path);
        Settings { crate_paths: paths, ..self }
    }

    /// [`Settings::with_crate_path`], or `None` when the path is not a
    /// plain `::`-separated path.
    pub fn try_with_crate_path(self, krate: GeneratedCrate, path: &str) -> (r: Option<Self>)
        ensures
            r is Some <==> spec_parses_as_plain_path(path@),
            r matches Some(s) ==> {
                &&& forall|k: GeneratedCrate| #[trigger] s.crate_paths.override_of(k) == if k == krate {
                    Some(path@)
                } else {
                    self.crate_paths.override_of(k)
                }
                &&& s == (Settings { crate_paths: s.crate_paths, ..self })
            },
    {
        if parses_as_plain_path(path) {
            Some(self.with_crate_path(krate, path))
        } else {
            None
        }
    }

    /// Imitate typify's renderer where the two differ.
    pub fn with_typify_compat(self, typify_compat: bool) -> (s: Self)
        ensures
            s == (Settings { typify_compat, ..self }),
    {
        Settings { typify_compat, ..self }
    }
}

} // verus!
