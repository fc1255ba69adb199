//! The children of a type together with the naming context each is
//! reached through.

use vstd::prelude::*;
use vstd::string::StringExecFns;

use crate::build::enums::{EnumVariant, VariantDetails};
use crate::build::structs::StructProperty;
use crate::build::Type;
use crate::finalize::{decimal, decimal_text};

verus! {

/// The properties of `props`, each with its Rust name as context, the
/// name prefixed with `prefix`.
pub open spec fn props_context(props: Seq<StructProperty>, prefix: Seq<char>) -> Seq<(u64, Seq<char>)> {
    Seq::new(props.len(), |i: int| (props[i].type_id, prefix + props[i].rust_name@))
}

/// The IDs of `ids`, each with its index as context, the index prefixed
/// with `prefix`.
pub open spec fn ids_context(ids: Seq<u64>, prefix: Seq<char>) -> Seq<(u64, Seq<char>)> {
    Seq::new(ids.len(), |i: int| (ids[i], prefix + decimal(i as nat)))
}

/// The children of one variant with their context: the variant's name
/// for an item, and the name followed by `.` and the component's index
/// or property name otherwise.
pub open spec fn variant_context(v: EnumVariant) -> Seq<(u64, Seq<char>)> {
    match v.details {
        VariantDetails::Unit => Seq::empty(),
        VariantDetails::Item(id) => seq![(id, v.rust_name@)],
        VariantDetails::Tuple(ids) => ids_context(ids@, v.rust_name@ + "."@),
        VariantDetails::Struct(props) => props_context(props@, v.rust_name@ + "."@),
    }
}

/// The children of a list of variants with their context, variant by
/// variant.
pub open spec fn variants_context(vs: Seq<EnumVariant>) -> Seq<(u64, Seq<char>)>
    decreases vs.len(),
{
    if vs.len() == 0 {
        Seq::empty()
    } else {
        variants_context(vs.drop_last()) + variant_context(vs.last())
    }
}

/// The children of `ty` that carry a naming context, each with that
/// context: a property name, a variant name (with `.` and an index or
/// property name for a variant's payload), a tuple index, `inner`,
/// `item`, `key`, or `value`; the contents of options and boxes come with
/// an empty context. A type alias and a native type's parameters confer
/// no naming context and contribute nothing.
pub open spec fn children_context(ty: Type) -> Seq<(u64, Seq<char>)> {
    match ty {
        Type::Enum(e) => variants_context(e.variants@),
        Type::Struct(s) => props_context(s.properties@, Seq::empty()),
        Type::TupleStruct(t) => ids_context(t.fields@, Seq::empty()) + match t.rest {
            Some(rest) => seq![(rest, decimal(t.fields@.len()))],
            None => Seq::empty(),
        },
        Type::NewtypeStruct(n) => seq![(n.inner, "inner"@)],
        Type::Option(id) => seq![(id, Seq::empty())],
        Type::Box(id) => seq![(id, Seq::empty())],
        Type::Vec(id) => seq![(id, "item"@)],
        Type::SetOf(id) => seq![(id, "item"@)],
        Type::Array(id, _) => seq![(id, "item"@)],
        Type::MapOf(k, v) => seq![(k, "key"@), (v, "value"@)],
        Type::Tuple(ids) => ids_context(ids@, Seq::empty()),
        _ => Seq::empty(),
    }
}

/// The pairs of `v` as mathematical values.
pub open spec fn context_view(v: Seq<(u64, String)>) -> Seq<(u64, Seq<char>)> {
    v.map_values(|p: (u64, String)| (p.0, p.1@))
}

/// Append the properties of `props` with their context to `out`.
fn push_props_context(out: &mut Vec<(u64, String)>, props: &Vec<StructProperty>, prefix: &str)
    ensures
        context_view(final(out)@) == context_view(old(out)@) + props_context(props@, prefix@),
{
    let ghost start = context_view(out@);
    let mut i: usize = 0;
    while i < props.len()
        invariant
            i <= props@.len(),
            context_view(out@) == start + props_context(props@.take(i as int), prefix@),
        decreases props@.len() - i,
    {
        let ghost before = out@;
        out.push((props[i].type_id, prefix.to_owned().concat(props[i].rust_name.as_str())));
        proof {
            assert(context_view(out@) =~= context_view(before) + seq![(props@[i as int].type_id, prefix@ + props@[i as int].rust_name@)]);
            assert(props_context(props@.take(i + 1), prefix@) =~= props_context(props@.take(i as int), prefix@) + seq![
                (props@[i as int].type_id, prefix@ + props@[i as int].rust_name@),
            ]);
        }
        i = i + 1;
    }
    proof {
        assert(props@.take(props@.len() as int) =~= props@);
    }
}

/// Append the IDs of `ids` with their index as context to `out`.
fn push_ids_context(out: &mut Vec<(u64, String)>, ids: &Vec<u64>, prefix: &str)
    ensures
        context_view(final(out)@) == context_view(old(out)@) + ids_context(ids@, prefix@),
{
    let ghost start = context_view(out@);
    let mut i: usize = 0;
    while i < ids.len()
        invariant
            i <= ids@.len(),
            context_view(out@) == start + ids_context(ids@.take(i as int), prefix@),
        decreases ids@.len() - i,
    {
        let ghost before = out@;
        out.push((ids[i], prefix.to_owned().concat(decimal_text(i).as_str())));
        proof {
            assert(context_view(out@) =~= context_view(before) + seq![(ids@[i as int], prefix@ + decimal(i as nat))]);
            assert(ids_context(ids@.take(i + 1), prefix@) =~= ids_context(ids@.take(i as int), prefix@) + seq![
                (ids@[i as int], prefix@ + decimal(i as nat)),
            ]);
        }
        i = i + 1;
    }
    proof {
        assert(ids@.take(ids@.len() as int) =~= ids@);
    }
}

/// A one-pair list.
fn single(id: u64, context: &str) -> (r: Vec<(u64, String)>)
    ensures
        context_view(r@) == seq![(id, context@)],
{
    let mut r: Vec<(u64, String)> = Vec::new();
    r.push((id, context.to_owned()));
    proof {
        assert(context_view(r@) =~= seq![(id, context@)]);
    }
    r
}

/// The children of a list of variants with their context, variant by
/// variant.
fn variants_with_context(vs: &Vec<EnumVariant>) -> (r: Vec<(u64, String)>)
    ensures
        context_view(r@) == variants_context(vs@),
{
    proof {
        reveal_strlit(".");
    }
    let mut out: Vec<(u64, String)> = Vec::new();
    proof {
        assert(context_view(out@) =~= Seq::empty());
        assert(vs@.take(0) =~= Seq::<EnumVariant>::empty());
    }
    let mut j: usize = 0;
    while j < vs.len()
        invariant
            j <= vs@.len(),
            context_view(out@) == variants_context(vs@.take(j as int)),
        decreases vs@.len() - j,
    {
        let v = &vs[j];
        let ghost before = context_view(out@);
        match &v.details {
            VariantDetails::Unit => {},
            VariantDetails::Item(id) => {
                out.push((*id, v.rust_name.clone()));
                proof {
                    assert(context_view(out@) =~= before + seq![(*id, v.rust_name@)]);
                }
            },
            VariantDetails::Tuple(ids) => {
                let prefix = v.rust_name.clone().concat(".");
                push_ids_context(&mut out, ids, prefix.as_str());
            },
            VariantDetails::Struct(props) => {
                let prefix = v.rust_name.clone().concat(".");
                push_props_context(&mut out, props, prefix.as_str());
            },
        }
        proof {
            assert(vs@.take(j + 1).drop_last() =~= vs@.take(j as int));
            assert(vs@.take(j + 1).last() == vs@[j as int]);
            assert(context_view(out@) =~= before + variant_context(vs@[j as int]));
        }
        j = j + 1;
    }
    proof {
        assert(vs@.take(vs@.len() as int) =~= vs@);
    }
    out
}

impl Type {
    /// The children of this type that carry a naming context, each with
    /// that context. This may report fewer children than
    /// [`Type::children`]: a type alias and a native type's parameters
    /// confer no naming context.
    pub fn children_with_context(&self) -> (r: Vec<(u64, String)>)
        ensures
            context_view(r@) == children_context(*self),
    {
        proof {
            reveal_strlit("");
            assert(""@ =~= Seq::<char>::empty());
        }
        match self {
            Type::Enum(e) => variants_with_context(&e.variants),
            Type::Struct(s) => {
                let mut out: Vec<(u64, String)> = Vec::new();
                proof {
                    assert(context_view(out@) =~= Seq::empty());
                }
                push_props_context(&mut out, &s.properties, "");
                proof {
                    assert(context_view(out@) =~= props_context(s.properties@, Seq::empty()));
                }
                out
            },
            Type::TupleStruct(t) => {
                let mut out: Vec<(u64, String)> = Vec::new();
                proof {
                    assert(context_view(out@) =~= Seq::empty());
                }
                push_ids_context(&mut out, &t.fields, "");
                let ghost fixed = context_view(out@);
                match t.rest {
                    Some(rest) => {
                        out.push((rest, decimal_text(t.fields.len())));
                        proof {
                            assert(context_view(out@) =~= fixed + seq![(rest, decimal(t.fields@.len()))]);
                        }
                    },
                    None => {},
                }
                proof {
                    assert(context_view(out@) =~= children_context(*self));
                }
                out
            },
            Type::NewtypeStruct(n) => single(n.inner, "inner"),
            Type::Option(id) => single(*id, ""),
            Type::Box(id) => single(*id, ""),
            Type::Vec(id) => single(*id, "item"),
            Type::SetOf(id) => single(*id, "item"),
            Type::Array(id, _) => single(*id, "item"),
            Type::MapOf(k, v) => {
                let mut out: Vec<(u64, String)> = Vec::new();
                proof {
                    assert(context_view(out@) =~= Seq::empty());
                }
                out.push((*k, "key".to_owned()));
                out.push((*v, "value".to_owned()));
                proof {
                    assert(context_view(out@) =~= seq![(*k, "key"@), (*v, "value"@)]);
                }
                out
            },
            Type::Tuple(ids) => {
                let mut out: Vec<(u64, String)> = Vec::new();
                proof {
                    assert(context_view(out@) =~= Seq::empty());
                }
                push_ids_context(&mut out, ids, "");
                proof {
                    assert(context_view(out@) =~= ids_context(ids@, Seq::empty()));
                }
                out
            },
            _ => {
                let out: Vec<(u64, String)> = Vec::new();
                proof {
                    assert(context_view(out@) =~= Seq::empty());
                }
                out
            },
        }
    }
}

} // verus!
