use vstd::prelude::*;

use crate::error::Error;
use crate::settings::ContainerType;
use crate::syntax::{parses_as_type, spec_parses_as_type};
use crate::traits::{
    lemma_trait_at, lemma_trait_index, trait_at, trait_at_index, trait_index, TraitProvision,
    TypespaceTrait, TypespaceTraitSet, TRAIT_COUNT,
};

verus! {

/// An externally defined type emitted by its Rust path.
///
/// A native is described exactly as a configured container is: a path
/// emitted verbatim, what it demands of its type parameters (its
/// obligations, empty by default), and what it implements for every trait
/// typespace tracks (its provisions). Unlike a container, a native may
/// answer [`TraitProvision::Unknown`] for a trait its declarer cannot
/// speak for.
#[derive(Debug, Clone)]
pub struct Native {
    pub container: ContainerType,
    pub parameters: Vec<u64>,
}

/// The provisions of a native declared with the traits in `impls`: those
/// it has unconditionally, and no others.
pub open spec fn impls_entry(impls: Set<TypespaceTrait>, t: TypespaceTrait) -> TraitProvision {
    if impls.contains(t) {
        TraitProvision::Always
    } else {
        TraitProvision::Never
    }
}

/// The traits a string-like native implements: everything `String` does,
/// `Display` and `FromStr` included, and not `Default`.
pub open spec fn string_like_set() -> Set<TypespaceTrait> {
    Set::new(|t: TypespaceTrait| t != TypespaceTrait::Default)
}

impl Native {
    /// The path emitted verbatim into generated code.
    pub open spec fn path_of(self) -> Seq<char> {
        self.container.path_of()
    }

    /// What the native demands of each of its type parameters.
    pub open spec fn obligations_of(self) -> Seq<TypespaceTraitSet> {
        self.container.obligations_of()
    }

    /// What the declaration says about `t`.
    pub open spec fn provision_of(self, t: TypespaceTrait) -> TraitProvision {
        self.container.provision_of(t)
    }

    /// The obligation count matches the parameter count.
    pub open spec fn well_formed(self) -> bool {
        self.obligations_of().len() == self.parameters@.len()
    }

    /// A native type at `path` (which must parse as a Rust type) that
    /// implements exactly the traits in `impls`, unconditionally, with
    /// `parameters` as its generic type parameters and nothing demanded
    /// of them.
    pub fn new(path: &str, impls: TypespaceTraitSet, parameters: Vec<u64>) -> (n: Self)
        requires
            spec_parses_as_type(path@),
        ensures
            n.path_of() == path@,
            n.parameters@ == parameters@,
            n.obligations_of().len() == parameters@.len(),
            forall|i: int| 0 <= i < parameters@.len() ==> (#[trigger] n.obligations_of()[i])@ == Set::<TypespaceTrait>::empty(),
            forall|t: TypespaceTrait| #[trigger] n.provision_of(t) == impls_entry(impls@, t),
            n.well_formed(),
    {
        let mut obligations: Vec<TypespaceTraitSet> = Vec::new();
        let mut k: usize = 0;
        while k < parameters.len()
            invariant
                k <= parameters@.len(),
                obligations@.len() == k,
                forall|i: int| 0 <= i < k ==> (#[trigger] obligations@[i])@ == Set::<TypespaceTrait>::empty(),
            decreases parameters@.len() - k,
        {
            obligations.push(TypespaceTraitSet::empty());
            k = k + 1;
        }
        let mut container = ContainerType::new(path, obligations);
        let mut i: usize = 0;
        while i < TRAIT_COUNT
            invariant
                i <= 13,
                container.path_of() == path@,
                container.obligations_of() == obligations@,
                forall|t: TypespaceTrait| trait_index(t) < i ==> #[trigger] container.provision_of(t) == impls_entry(impls@, t),
            decreases 13 - i,
        {
            let t = trait_at_index(i);
            proof {
                lemma_trait_at(i as int);
            }
            let p = if impls.contains(&t) {
                TraitProvision::Always
            } else {
                TraitProvision::Never
            };
            container = container.with_provision(t, p);
            i = i + 1;
        }
        proof {
            assert forall|t: TypespaceTrait| #[trigger] container.provision_of(t) == impls_entry(impls@, t) by {
                lemma_trait_index(t);
            }
        }
        Native { container, parameters }
    }

    /// [`Native::new`], or `None` when `path` does not parse as a Rust
    /// type.
    pub fn try_new(path: &str, impls: TypespaceTraitSet, parameters: Vec<u64>) -> (r: Option<Self>)
        ensures
            r is Some <==> spec_parses_as_type(path@),
            r matches Some(n) ==> {
                &&& n.path_of() == path@
                &&& n.parameters@ == parameters@
                &&& n.obligations_of().len() == parameters@.len()
                &&& forall|i: int| 0 <= i < parameters@.len() ==> (#[trigger] n.obligations_of()[i])@ == Set::<TypespaceTrait>::empty()
                &&& forall|t: TypespaceTrait| #[trigger] n.provision_of(t) == impls_entry(impls@, t)
            },
    {
        if parses_as_type(path) {
            Some(Native::new(path, impls, parameters))
        } else {
            None
        }
    }

    /// A native that behaves like a string: no type parameters, and the
    /// full complement of traits `String` implements, `Display` and
    /// `FromStr` included.
    pub fn new_string_like(path: &str) -> (n: Self)
        requires
            spec_parses_as_type(path@),
        ensures
            n.path_of() == path@,
            n.parameters@.len() == 0,
            n.obligations_of().len() == 0,
            forall|t: TypespaceTrait| #[trigger] n.provision_of(t) == impls_entry(string_like_set(), t),
    {
        let mut impls = TypespaceTraitSet::empty();
        impls.add(TypespaceTrait::Clone);
        impls.add(TypespaceTrait::Debug);
        impls.add(TypespaceTrait::Serialize);
        impls.add(TypespaceTrait::Deserialize);
        impls.add(TypespaceTrait::JsonSchema);
        impls.add(TypespaceTrait::Ord);
        impls.add(TypespaceTrait::PartialOrd);
        impls.add(TypespaceTrait::Eq);
        impls.add(TypespaceTrait::PartialEq);
        impls.add(TypespaceTrait::Hash);
        impls.add(TypespaceTrait::Display);
        impls.add(TypespaceTrait::FromStr);
        proof {
            assert(impls@ =~= string_like_set());
        }
        Native::new(path, impls, Vec::new())
    }

    /// [`Native::new_string_like`], or `None` when `path` does not parse
    /// as a Rust type.
    pub fn try_new_string_like(path: &str) -> (r: Option<Self>)
        ensures
            r is Some <==> spec_parses_as_type(path@),
            r matches Some(n) ==> {
                &&& n.path_of() == path@
                &&& n.parameters@.len() == 0
                &&& n.obligations_of().len() == 0
                &&& forall|t: TypespaceTrait| #[trigger] n.provision_of(t) == impls_entry(string_like_set(), t)
            },
    {
        if parses_as_type(path) {
            Some(Native::new_string_like(path))
        } else {
            None
        }
    }

    /// Set what the declaration says about one trait, replacing what it
    /// said before.
    pub fn with_disposition(self, t: TypespaceTrait, disposition: TraitProvision) -> (n: Self)
        ensures
            n.path_of() == self.path_of(),
            n.parameters == self.parameters,
            n.obligations_of() == self.obligations_of(),
            forall|u: TypespaceTrait| #[trigger] n.provision_of(u) == if u == t {
                disposition
            } else {
                self.provision_of(u)
            },
    {
        let Native { container, parameters } = self;
        Native { container: container.with_provision(t, disposition), parameters }
    }

    /// Mark each of `traits` as one the declaration cannot answer for.
    pub fn with_unknown(self, traits: TypespaceTraitSet) -> (n: Self)
        ensures
            n.path_of() == self.path_of(),
            n.parameters == self.parameters,
            n.obligations_of() == self.obligations_of(),
            forall|u: TypespaceTrait| #[trigger] n.provision_of(u) == if traits@.contains(u) {
                TraitProvision::Unknown
            } else {
                self.provision_of(u)
            },
    {
        let members = traits.iter();
        let mut n = self;
        let mut i: usize = 0;
        while i < members.len()
            invariant
                i <= members@.len(),
                forall|t: TypespaceTrait| #[trigger] members@.contains(t) <==> traits@.contains(t),
                n.path_of() == self.path_of(),
                n.parameters == self.parameters,
                n.obligations_of() == self.obligations_of(),
                forall|u: TypespaceTrait| #[trigger] n.provision_of(u) == if members@.subrange(0, i as int).contains(u) {
                    TraitProvision::Unknown
                } else {
                    self.provision_of(u)
                },
            decreases members@.len() - i,
        {
            let t = members[i];
            n = n.with_disposition(t, TraitProvision::Unknown);
            proof {
                assert forall|u: TypespaceTrait| members@.subrange(0, i + 1).contains(u) == (members@.subrange(0, i as int).contains(u) || u == t) by {
                    if members@.subrange(0, i + 1).contains(u) {
                        let k = choose|k: int| 0 <= k < i + 1 && #[trigger] members@.subrange(0, i + 1)[k] == u;
                        if k < i {
                            assert(members@.subrange(0, i as int)[k] == u);
                        }
                    }
                    if members@.subrange(0, i as int).contains(u) {
                        let k = choose|k: int| 0 <= k < i && #[trigger] members@.subrange(0, i as int)[k] == u;
                        assert(members@.subrange(0, i + 1)[k] == u);
                    }
                    if u == t {
                        assert(members@.subrange(0, i + 1)[i as int] == u);
                    }
                }
            }
            i = i + 1;
        }
        proof {
            assert(members@.subrange(0, members@.len() as int) == members@);
        }
        n
    }

    /// Mark every trait the type does not positively declare (neither
    /// unconditionally nor conditioned on a type parameter) as one the
    /// declaration cannot answer for.
    pub fn with_rest_unknown(self) -> (n: Self)
        ensures
            n.path_of() == self.path_of(),
            n.parameters == self.parameters,
            n.obligations_of() == self.obligations_of(),
            forall|u: TypespaceTrait| #[trigger] n.provision_of(u) == match self.provision_of(u) {
                TraitProvision::Never | TraitProvision::Unknown => TraitProvision::Unknown,
                p => p,
            },
    {
        let mut rest = TypespaceTraitSet::empty();
        let mut i: usize = 0;
        while i < TRAIT_COUNT
            invariant
                i <= 13,
                forall|t: TypespaceTrait| #[trigger] rest@.contains(t) <==> (trait_index(t) < i && (
                    self.provision_of(t) is Never || self.provision_of(t) is Unknown)),
            decreases 13 - i,
        {
            let t = trait_at_index(i);
            proof {
                lemma_trait_at(i as int);
            }
            match self.disposition(t) {
                TraitProvision::Never | TraitProvision::Unknown => rest.add(t),
                _ => {},
            }
            proof {
                assert forall|u: TypespaceTrait| #[trigger] rest@.contains(u) <==> (trait_index(u) < i + 1 && (
                    self.provision_of(u) is Never || self.provision_of(u) is Unknown)) by {
                    lemma_trait_index(u);
                    if trait_index(u) == i {
                        assert(u == t);
                    }
                }
            }
            i = i + 1;
        }
        proof {
            assert forall|u: TypespaceTrait| #[trigger] rest@.contains(u) <==> (self.provision_of(u) is Never || self.provision_of(u) is Unknown) by {
                lemma_trait_index(u);
            }
        }
        self.with_unknown(rest)
    }

    /// Set what the native demands of each of its type parameters.
    pub fn with_obligations(self, obligations: Vec<TypespaceTraitSet>) -> (n: Self)
        ensures
            n.path_of() == self.path_of(),
            n.parameters == self.parameters,
            n.obligations_of() == obligations@,
            forall|u: TypespaceTrait| #[trigger] n.provision_of(u) == self.provision_of(u),
    {
        let Native { container, parameters } = self;
        Native { container: container.with_obligations(obligations), parameters }
    }

    /// The checks `build()` applies: the obligation count must match the
    /// parameter count.
    pub fn validate(&self) -> (r: Result<(), Error>)
        ensures
            r is Ok <==> self.well_formed(),
            r matches Err(e) ==> e matches Error::NativeParameterCount { path: p, declared: d, parameters: q }
                && p@ == self.path_of() && d == self.obligations_of().len() && q == self.parameters@.len(),
    {
        let declared = self.container.obligations().len();
        let parameters = self.parameters.len();
        if declared != parameters {
            return Err(Error::NativeParameterCount { path: self.container.path().to_owned(), declared, parameters });
        }
        Ok(())
    }

    /// The Rust type path emitted verbatim.
    pub fn path(&self) -> (r: &str)
        ensures
            r@ == self.path_of(),
    {
        self.container.path()
    }

    /// The IDs of the type's generic type parameters.
    pub fn parameters(&self) -> (r: &[u64])
        ensures
            r@ == self.parameters@,
    {
        self.parameters.as_slice()
    }

    /// What the native demands of each of its type parameters.
    pub fn obligations(&self) -> (r: &[TypespaceTraitSet])
        ensures
            r@ == self.obligations_of(),
    {
        self.container.obligations()
    }

    /// What the declaration says about `t`.
    pub fn disposition(&self, t: TypespaceTrait) -> (p: TraitProvision)
        ensures
            p == self.provision_of(t),
    {
        self.container.provision(t)
    }

    /// What the declaration says about every trait, in declaration order.
    pub fn dispositions(&self) -> (v: Vec<(TypespaceTrait, TraitProvision)>)
        ensures
            v@.len() == 13,
            forall|i: int| 0 <= i < 13 ==> #[trigger] v@[i] == (trait_at(i), self.provision_of(trait_at(i))),
    {
        self.container.provisions()
    }
}

} // verus!
