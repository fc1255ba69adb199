//! The trait vocabulary: the traits typespace tracks, sets of them, and
//! what a declaration says about one.

use vstd::prelude::*;

verus! {

/// A trait that typespace tracks for generated and native types.
///
/// Uses of a type impose trait requirements that finalization propagates
/// through the graph: a type used as a map key must implement `Eq`,
/// `PartialEq`, `Ord`, and `PartialOrd`, and so must every type it
/// contains. A requirement that a type cannot satisfy (`Ord` on a float,
/// say) is an error.
#[derive(Debug, Clone, Copy, PartialEq, Eq, Structural, PartialOrd, Ord, Hash)]
#[non_exhaustive]
pub enum TypespaceTrait {
    Deserialize,
    Serialize,
    Clone,
    Debug,
    JsonSchema,
    Display,
    FromStr,
    Eq,
    Hash,
    Ord,
    PartialEq,
    PartialOrd,
    Default,
}

/// The name of trait `t`, as messages print it.
pub open spec fn trait_text(t: TypespaceTrait) -> Seq<char> {
    match t {
        TypespaceTrait::Deserialize => "Deserialize"@,
        TypespaceTrait::Serialize => "Serialize"@,
        TypespaceTrait::Clone => "Clone"@,
        TypespaceTrait::Debug => "Debug"@,
        TypespaceTrait::JsonSchema => "JsonSchema"@,
        TypespaceTrait::Display => "Display"@,
        TypespaceTrait::FromStr => "FromStr"@,
        TypespaceTrait::Eq => "Eq"@,
        TypespaceTrait::Hash => "Hash"@,
        TypespaceTrait::Ord => "Ord"@,
        TypespaceTrait::PartialEq => "PartialEq"@,
        TypespaceTrait::PartialOrd => "PartialOrd"@,
        TypespaceTrait::Default => "Default"@,
    }
}

impl TypespaceTrait {
    /// The trait's name, as messages print it.
    pub fn name(&self) -> (r: &'static str)
        ensures
            r@ == trait_text(*self),
    {
        match self {
            TypespaceTrait::Deserialize => "Deserialize",
            TypespaceTrait::Serialize => "Serialize",
            TypespaceTrait::Clone => "Clone",
            TypespaceTrait::Debug => "Debug",
            TypespaceTrait::JsonSchema => "JsonSchema",
            TypespaceTrait::Display => "Display",
            TypespaceTrait::FromStr => "FromStr",
            TypespaceTrait::Eq => "Eq",
            TypespaceTrait::Hash => "Hash",
            TypespaceTrait::Ord => "Ord",
            TypespaceTrait::PartialEq => "PartialEq",
            TypespaceTrait::PartialOrd => "PartialOrd",
            TypespaceTrait::Default => "Default",
        }
    }
}

/// The position of a trait in declaration order, which is also the order
/// in which a [`TypespaceTraitSet`] lists its members.
pub open spec fn trait_index(t: TypespaceTrait) -> int {
    match t {
        TypespaceTrait::Deserialize => 0,
        TypespaceTrait::Serialize => 1,
        TypespaceTrait::Clone => 2,
        TypespaceTrait::Debug => 3,
        TypespaceTrait::JsonSchema => 4,
        TypespaceTrait::Display => 5,
        TypespaceTrait::FromStr => 6,
        TypespaceTrait::Eq => 7,
        TypespaceTrait::Hash => 8,
        TypespaceTrait::Ord => 9,
        TypespaceTrait::PartialEq => 10,
        TypespaceTrait::PartialOrd => 11,
        TypespaceTrait::Default => 12,
    }
}

/// The trait at a position in declaration order.
pub open spec fn trait_at(i: int) -> TypespaceTrait {
    if i == 0 {
        TypespaceTrait::Deserialize
    } else if i == 1 {
        TypespaceTrait::Serialize
    } else if i == 2 {
        TypespaceTrait::Clone
    } else if i == 3 {
        TypespaceTrait::Debug
    } else if i == 4 {
        TypespaceTrait::JsonSchema
    } else if i == 5 {
        TypespaceTrait::Display
    } else if i == 6 {
        TypespaceTrait::FromStr
    } else if i == 7 {
        TypespaceTrait::Eq
    } else if i == 8 {
        TypespaceTrait::Hash
    } else if i == 9 {
        TypespaceTrait::Ord
    } else if i == 10 {
        TypespaceTrait::PartialEq
    } else if i == 11 {
        TypespaceTrait::PartialOrd
    } else {
        TypespaceTrait::Default
    }
}

/// The number of traits typespace tracks.
pub const TRAIT_COUNT: usize = 13;

/// Every trait typespace tracks, in declaration order.
pub open spec fn all_traits_seq() -> Seq<TypespaceTrait> {
    Seq::new(13, |i: int| trait_at(i))
}

/// `trait_at` and `trait_index` are inverse bijections between the
/// traits and `0..13`.
pub proof fn lemma_trait_index(t: TypespaceTrait)
    ensures
        0 <= trait_index(t) < 13,
        trait_at(trait_index(t)) == t,
{
}

/// The trait at position `i` has index `i`.
pub proof fn lemma_trait_at(i: int)
    requires
        0 <= i < 13,
    ensures
        trait_index(trait_at(i)) == i,
{
}

/// The trait at a position in declaration order.
pub fn trait_at_index(i: usize) -> (t: TypespaceTrait)
    requires
        i < 13,
    ensures
        t == trait_at(i as int),
{
    if i == 0 {
        TypespaceTrait::Deserialize
    } else if i == 1 {
        TypespaceTrait::Serialize
    } else if i == 2 {
        TypespaceTrait::Clone
    } else if i == 3 {
        TypespaceTrait::Debug
    } else if i == 4 {
        TypespaceTrait::JsonSchema
    } else if i == 5 {
        TypespaceTrait::Display
    } else if i == 6 {
        TypespaceTrait::FromStr
    } else if i == 7 {
        TypespaceTrait::Eq
    } else if i == 8 {
        TypespaceTrait::Hash
    } else if i == 9 {
        TypespaceTrait::Ord
    } else if i == 10 {
        TypespaceTrait::PartialEq
    } else if i == 11 {
        TypespaceTrait::PartialOrd
    } else {
        TypespaceTrait::Default
    }
}

/// A set of [`TypespaceTrait`] values.
///
/// Used, for example, for the traits a native type declares that it
/// implements. Members are listed in declaration order.
#[derive(Debug, Clone, Copy, PartialEq, Eq, Structural, PartialOrd, Ord, Hash)]
pub struct TypespaceTraitSet {
    deserialize: bool,
    serialize: bool,
    clone: bool,
    debug: bool,
    json_schema: bool,
    display: bool,
    from_str: bool,
    eq: bool,
    hash: bool,
    ord: bool,
    partial_eq: bool,
    partial_ord: bool,
    default: bool,
}

impl TypespaceTraitSet {
    /// Whether `t` is a member.
    pub closed spec fn has(self, t: TypespaceTrait) -> bool {
        match t {
            TypespaceTrait::Deserialize => self.deserialize,
            TypespaceTrait::Serialize => self.serialize,
            TypespaceTrait::Clone => self.clone,
            TypespaceTrait::Debug => self.debug,
            TypespaceTrait::JsonSchema => self.json_schema,
            TypespaceTrait::Display => self.display,
            TypespaceTrait::FromStr => self.from_str,
            TypespaceTrait::Eq => self.eq,
            TypespaceTrait::Hash => self.hash,
            TypespaceTrait::Ord => self.ord,
            TypespaceTrait::PartialEq => self.partial_eq,
            TypespaceTrait::PartialOrd => self.partial_ord,
            TypespaceTrait::Default => self.default,
        }
    }
}

impl View for TypespaceTraitSet {
    type V = Set<TypespaceTrait>;

    open spec fn view(&self) -> Set<TypespaceTrait> {
        Set::new(|t: TypespaceTrait| self.has(t))
    }
}

impl TypespaceTraitSet {
    /// The empty set.
    pub fn empty() -> (s: Self)
        ensures
            s@ == Set::<TypespaceTrait>::empty(),
    {
        let s = TypespaceTraitSet {
            deserialize: false,
            serialize: false,
            clone: false,
            debug: false,
            json_schema: false,
            display: false,
            from_str: false,
            eq: false,
            hash: false,
            ord: false,
            partial_eq: false,
            partial_ord: false,
            default: false,
        };
        assert(s@ =~= Set::<TypespaceTrait>::empty());
        s
    }

    /// Whether `tt` is a member.
    pub fn contains(&self, tt: &TypespaceTrait) -> (b: bool)
        ensures
            b == self@.contains(*tt),
    {
        match *tt {
            TypespaceTrait::Deserialize => self.deserialize,
            TypespaceTrait::Serialize => self.serialize,
            TypespaceTrait::Clone => self.clone,
            TypespaceTrait::Debug => self.debug,
            TypespaceTrait::JsonSchema => self.json_schema,
            TypespaceTrait::Display => self.display,
            TypespaceTrait::FromStr => self.from_str,
            TypespaceTrait::Eq => self.eq,
            TypespaceTrait::Hash => self.hash,
            TypespaceTrait::Ord => self.ord,
            TypespaceTrait::PartialEq => self.partial_eq,
            TypespaceTrait::PartialOrd => self.partial_ord,
            TypespaceTrait::Default => self.default,
        }
    }

    fn set_member(&mut self, tt: TypespaceTrait, member: bool)
        ensures
            forall|u: TypespaceTrait|
                #[trigger] final(self).has(u) == if u == tt {
                    member
                } else {
                    old(self).has(u)
                },
    {
        match tt {
            TypespaceTrait::Deserialize => self.deserialize = member,
            TypespaceTrait::Serialize => self.serialize = member,
            TypespaceTrait::Clone => self.clone = member,
            TypespaceTrait::Debug => self.debug = member,
            TypespaceTrait::JsonSchema => self.json_schema = member,
            TypespaceTrait::Display => self.display = member,
            TypespaceTrait::FromStr => self.from_str = member,
            TypespaceTrait::Eq => self.eq = member,
            TypespaceTrait::Hash => self.hash = member,
            TypespaceTrait::Ord => self.ord = member,
            TypespaceTrait::PartialEq => self.partial_eq = member,
            TypespaceTrait::PartialOrd => self.partial_ord = member,
            TypespaceTrait::Default => self.default = member,
        }
    }

    /// Add `tt`.
    pub fn add(&mut self, tt: TypespaceTrait)
        ensures
            final(self)@ == old(self)@.insert(tt),
    {
        self.set_member(tt, true);
        assert(self@ =~= old(self)@.insert(tt));
    }

    /// Remove `tt`, reporting whether it was a member.
    pub fn remove(&mut self, tt: TypespaceTrait) -> (was: bool)
        ensures
            final(self)@ == old(self)@.remove(tt),
            was == old(self)@.contains(tt),
    {
        let was = self.contains(&tt);
        self.set_member(tt, false);
        assert(self@ =~= old(self)@.remove(tt));
        was
    }

    /// Whether the set has no members.
    pub fn is_empty(&self) -> (b: bool)
        ensures
            b == (self@ == Set::<TypespaceTrait>::empty()),
    {
        let b = !(self.deserialize || self.serialize || self.clone || self.debug
            || self.json_schema || self.display || self.from_str || self.eq || self.hash
            || self.ord || self.partial_eq || self.partial_ord || self.default);
        if !b {
            assert(!(self@ =~= Set::<TypespaceTrait>::empty())) by {
                if self.deserialize {
                    assert(self@.contains(TypespaceTrait::Deserialize));
                } else if self.serialize {
                    assert(self@.contains(TypespaceTrait::Serialize));
                } else if self.clone {
                    assert(self@.contains(TypespaceTrait::Clone));
                } else if self.debug {
                    assert(self@.contains(TypespaceTrait::Debug));
                } else if self.json_schema {
                    assert(self@.contains(TypespaceTrait::JsonSchema));
                } else if self.display {
                    assert(self@.contains(TypespaceTrait::Display));
                } else if self.from_str {
                    assert(self@.contains(TypespaceTrait::FromStr));
                } else if self.eq {
                    assert(self@.contains(TypespaceTrait::Eq));
                } else if self.hash {
                    assert(self@.contains(TypespaceTrait::Hash));
                } else if self.ord {
                    assert(self@.contains(TypespaceTrait::Ord));
                } else if self.partial_eq {
                    assert(self@.contains(TypespaceTrait::PartialEq));
                } else if self.partial_ord {
                    assert(self@.contains(TypespaceTrait::PartialOrd));
                } else {
                    assert(self@.contains(TypespaceTrait::Default));
                }
            }
        } else {
            assert(self@ =~= Set::<TypespaceTrait>::empty());
        }
        b
    }

    /// The members, in declaration order.
    pub fn iter(&self) -> (v: Vec<TypespaceTrait>)
        ensures
            forall|t: TypespaceTrait| #[trigger] v@.contains(t) <==> self@.contains(t),
            v@.no_duplicates(),
            forall|i: int, j: int|
                0 <= i < j < v@.len() ==> trait_index(#[trigger] v@[i]) < trait_index(
                    #[trigger] v@[j],
                ),
    {
        let mut v: Vec<TypespaceTrait> = Vec::new();
        let mut i: usize = 0;
        while i < TRAIT_COUNT
            invariant
                i <= 13,
                forall|k: int| 0 <= k < v@.len() ==> trait_index(#[trigger] v@[k]) < i,
                forall|k: int| 0 <= k < v@.len() ==> self@.contains(#[trigger] v@[k]),
                forall|t: TypespaceTrait|
                    trait_index(t) < i && self@.contains(t) ==> #[trigger] v@.contains(t),
                forall|a: int, b: int|
                    0 <= a < b < v@.len() ==> trait_index(#[trigger] v@[a]) < trait_index(
                        #[trigger] v@[b],
                    ),
            decreases 13 - i,
        {
            let t = trait_at_index(i);
            proof {
                lemma_trait_at(i as int);
            }
            let ghost old_v = v@;
            if self.contains(&t) {
                v.push(t);
                proof {
                    assert(v@[v@.len() - 1] == t);
                }
            }
            proof {
                assert forall|u: TypespaceTrait|
                    trait_index(u) < i + 1 && self@.contains(u) implies #[trigger] v@.contains(u) by {
                    if trait_index(u) < i {
                        assert(old_v.contains(u));
                        let k = choose|k: int| 0 <= k < old_v.len() && old_v[k] == u;
                        assert(v@[k] == u);
                    } else {
                        lemma_trait_index(u);
                        assert(u == t);
                        assert(v@[v@.len() - 1] == t);
                    }
                }
            }
            i = i + 1;
        }
        proof {
            assert forall|t: TypespaceTrait| self@.contains(t) implies #[trigger] v@.contains(t) by {
                lemma_trait_index(t);
            }
            assert forall|a: int, b: int|
                0 <= a < v@.len() && 0 <= b < v@.len() && a != b implies v@[a] != v@[b] by {
                if a < b {
                    assert(trait_index(v@[a]) < trait_index(v@[b]));
                } else {
                    assert(trait_index(v@[b]) < trait_index(v@[a]));
                }
            }
        }
        v
    }

    /// The members of `self` that are not members of `other`, in
    /// declaration order.
    pub fn difference(&self, other: &Self) -> (v: Vec<TypespaceTrait>)
        ensures
            forall|t: TypespaceTrait|
                #[trigger] v@.contains(t) <==> self@.contains(t) && !other@.contains(t),
            v@.no_duplicates(),
            forall|i: int, j: int|
                0 <= i < j < v@.len() ==> trait_index(#[trigger] v@[i]) < trait_index(#[trigger] v@[j]),
    {
        let all = self.iter();
        let mut v: Vec<TypespaceTrait> = Vec::new();
        let mut i: usize = 0;
        while i < all.len()
            invariant
                i <= all@.len(),
                forall|t: TypespaceTrait| #[trigger] all@.contains(t) <==> self@.contains(t),
                all@.no_duplicates(),
                v@.no_duplicates(),
                forall|t: TypespaceTrait|
                    #[trigger] v@.contains(t) <==> (exists|j: int|
                        0 <= j < i && all@[j] == t) && !other@.contains(t),
                forall|a: int, b: int|
                    0 <= a < b < all@.len() ==> trait_index(#[trigger] all@[a]) < trait_index(#[trigger] all@[b]),
                forall|a: int, b: int|
                    0 <= a < b < v@.len() ==> trait_index(#[trigger] v@[a]) < trait_index(#[trigger] v@[b]),
                forall|k: int, j: int|
                    0 <= k < v@.len() && i <= j < all@.len() ==> trait_index(#[trigger] v@[k]) < trait_index(#[trigger] all@[j]),
            decreases all@.len() - i,
        {
            let t = all[i];
            let ghost old_v = v@;
            if !other.contains(&t) {
                proof {
                    assert(!v@.contains(t)) by {
                        if v@.contains(t) {
                            let j = choose|j: int| 0 <= j < i && all@[j] == t;
                            assert(all@[j] == all@[i as int]);
                        }
                    }
                }
                v.push(t);
            }
            proof {
                assert forall|u: TypespaceTrait|
                    #[trigger] v@.contains(u) <==> (exists|j: int|
                        0 <= j < i + 1 && all@[j] == u) && !other@.contains(u) by {
                    if v@.contains(u) {
                        if u == t {
                            assert(all@[i as int] == u);
                        } else {
                            let k = choose|k: int| 0 <= k < v@.len() && v@[k] == u;
                            assert(old_v.contains(u));
                        }
                    }
                    if (exists|j: int| 0 <= j < i + 1 && all@[j] == u) && !other@.contains(u) {
                        let j = choose|j: int| 0 <= j < i + 1 && all@[j] == u;
                        if j < i {
                            assert(old_v.contains(u));
                            let k = choose|k: int| 0 <= k < old_v.len() && old_v[k] == u;
                            assert(v@[k] == u);
                        } else {
                            assert(u == t);
                            assert(v@[v@.len() - 1] == t);
                        }
                    }
                }
            }
            i = i + 1;
        }
        proof {
            assert forall|t: TypespaceTrait|
                #[trigger] v@.contains(t) <==> self@.contains(t) && !other@.contains(t) by {
                if self@.contains(t) && !other@.contains(t) {
                    assert(all@.contains(t));
                    let j = choose|j: int| 0 <= j < all@.len() && all@[j] == t;
                    assert(v@.contains(t));
                }
                if v@.contains(t) {
                    let j = choose|j: int| 0 <= j < i && all@[j] == t;
                    assert(all@.contains(t));
                }
            }
        }
        v
    }
}

impl Default for TypespaceTraitSet {
    /// The empty set.
    fn default() -> (s: Self)
        ensures
            s@ == Set::<TypespaceTrait>::empty(),
    {
        TypespaceTraitSet::empty()
    }
}

/// What a declaration says about one trait.
///
/// A container's declaration answers for every trait; a native type's may
/// also leave a trait [`Unknown`](TraitProvision::Unknown).
#[derive(Debug, Clone, Copy, PartialEq, Eq, Structural)]
pub enum TraitProvision {
    /// The type has no impl for the trait at any parameter.
    Never,
    /// The type has an impl whatever its parameters are.
    Always,
    /// The type has an impl exactly when each of its parameters does.
    IfParameters,
    /// The declaration cannot answer either way.
    Unknown,
}

/// What a native type says about one trait, with its parameters taken as
/// given.
#[derive(Debug, Clone, Copy, PartialEq, Eq, Structural)]
pub enum TraitDisposition {
    /// The type implements the trait.
    Yes,
    /// The type does not implement the trait.
    No,
    /// The declaration cannot answer either way.
    Unknown,
}

/// Identifies a trait implementation that typespace is aware of.
#[derive(Debug, Clone, Copy, PartialEq, Eq, Structural)]
#[non_exhaustive]
pub enum TypeSpaceImpl {
    Display,
    FromStr,
    Eq,
    Ord,
    Hash,
}

} // verus!
