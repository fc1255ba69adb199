//! Cycles in the type graph, and the two passes that deal with them.
//!
//! Both passes walk the graph depth first from every type, visiting each
//! type once and keeping the path from the walk's root to the current
//! type; a child on that path closes a cycle.

use std::collections::{BTreeMap, BTreeSet};

use vstd::prelude::*;

use crate::build::Type;
use crate::error::Error;
use crate::build::replace_id;
use crate::graph::{
    anon_acyclic, anon_edge, anon_path, anon_ranked, closed, contains_acyclic, contains_edge, contains_path,
    contains_ranked, lemma_anon_cycle_unranked, lemma_u64_key_order, on_contains_cycle, sorted_keys,
};

verus! {

broadcast use vstd::std_specs::btree::group_btree_axioms, vstd::laws_cmp::group_laws_cmp, vstd::seq_lib::group_seq_properties;

/// A type on the walk's current path, with the children still to descend
/// into (taken from the end).
pub struct Frame {
    pub node: u64,
    pub pending: Vec<u64>,
}

/// The nodes of a stack of frames, bottom first.
pub open spec fn stack_nodes(s: Seq<Frame>) -> Seq<u64> {
    s.map_values(|f: Frame| f.node)
}

/// How many children the frames of a stack still hold.
pub open spec fn pending_total(s: Seq<Frame>) -> nat
    decreases s.len(),
{
    if s.len() == 0 {
        0
    } else {
        pending_total(s.drop_last()) + s.last().pending@.len()
    }
}

/// The anonymous children of anonymous type `id`, in order, or the first
/// of them that is on the current path.
fn anon_visit(types: &BTreeMap<u64, Type>, id: u64, active: &BTreeSet<u64>) -> (r: Result<Vec<u64>, u64>)
    requires
        types@.contains_key(id),
        !types@[id].spec_is_named(),
        closed(types@),
    ensures
        match r {
            Ok(list) => (forall|c: u64| #[trigger] list@.contains(c) <==> anon_edge(types@, id, c))
                && (forall|c: u64| #[trigger] list@.contains(c) ==> !active@.contains(c)),
            Err(c) => anon_edge(types@, id, c) && active@.contains(c),
        },
{
    proof {
        lemma_u64_key_order();
    }
    let ty = types.get(&id).unwrap();
    let children = ty.children();
    let mut out: Vec<u64> = Vec::new();
    let mut i: usize = 0;
    while i < children.len()
        invariant
            i <= children@.len(),
            children@ == types@[id].spec_children(),
            types@.contains_key(id),
            !types@[id].spec_is_named(),
            closed(types@),
            forall|c: u64| #[trigger] out@.contains(c) <==> (children@.take(i as int).contains(c)
                && types@.contains_key(c) && !types@[c].spec_is_named()),
            forall|c: u64| #[trigger] out@.contains(c) ==> !active@.contains(c),
        decreases children@.len() - i,
    {
        let child = children[i];
        proof {
            assert(children@.contains(child));
            assert(types@[id].spec_children().contains(child));
        }
        let t = types.get(&child).unwrap();
        let ghost old_out = out@;
        if !t.is_named() {
            if active.contains(&child) {
                proof {
                    assert(anon_edge(types@, id, child));
                }
                return Err(child);
            }
            out.push(child);
        }
        proof {
            assert forall|c: u64| #[trigger] out@.contains(c) <==> (children@.take(i + 1).contains(c)
                && types@.contains_key(c) && !types@[c].spec_is_named()) by {
                if children@.take(i + 1).contains(c) {
                    let k = choose|k: int| 0 <= k < i + 1 && #[trigger] children@.take(i + 1)[k] == c;
                    if k < i {
                        assert(children@.take(i as int)[k] == c);
                    }
                }
                if children@.take(i as int).contains(c) {
                    let k = choose|k: int| 0 <= k < i && #[trigger] children@.take(i as int)[k] == c;
                    assert(children@.take(i + 1)[k] == c);
                }
                if c == child {
                    assert(children@.take(i + 1)[i as int] == c);
                }
                if out@.contains(c) && !old_out.contains(c) {
                    assert(c == child);
                }
                if old_out.contains(c) {
                    let k = choose|k: int| 0 <= k < old_out.len() && #[trigger] old_out[k] == c;
                    assert(out@[k] == c);
                }
            }
        }
        i = i + 1;
    }
    proof {
        assert(children@.take(children@.len() as int) == children@);
        assert forall|c: u64| #[trigger] out@.contains(c) <==> anon_edge(types@, id, c) by {
            if anon_edge(types@, id, c) {
                assert(types@[id].spec_children().contains(c));
            }
        }
    }
    Ok(out)
}

/// The walk's state is consistent: `visited` holds anonymous types,
/// `active` is the set of nodes on the stack, finished types carry ranks
/// below `counter` that fall along every edge, and each frame still holds
/// every child of its node that is neither finished nor the next frame's
/// node.
pub open spec fn anon_walk_inv(
    m: Map<u64, Type>,
    visited: Set<u64>,
    active: Set<u64>,
    stack: Seq<Frame>,
    fin: Map<u64, nat>,
    counter: nat,
) -> bool {
    &&& forall|v: u64| #[trigger] visited.contains(v) ==> m.contains_key(v) && !m[v].spec_is_named()
    &&& active == stack_nodes(stack).to_set()
    &&& stack_nodes(stack).no_duplicates()
    &&& forall|v: u64| #[trigger] active.contains(v) ==> visited.contains(v)
    &&& forall|v: u64| #[trigger] fin.contains_key(v) <==> (visited.contains(v) && !active.contains(v))
    &&& forall|v: u64| #[trigger] fin.contains_key(v) ==> fin[v] < counter
    &&& forall|a: u64, c: u64|
        fin.contains_key(a) && #[trigger] anon_edge(m, a, c) ==> fin.contains_key(c) && fin[c] < fin[a]
    &&& forall|k: int, e: u64|
        0 <= k < stack.len() && #[trigger] stack[k].pending@.contains(e) ==> anon_edge(m, stack[k].node, e)
            && !stack_nodes(stack).take(k + 1).contains(e)
    &&& forall|k: int, c: u64|
        0 <= k < stack.len() && #[trigger] anon_edge(m, stack[k].node, c) ==> stack[k].pending@.contains(c)
            || fin.contains_key(c) || (k + 1 < stack.len() && stack[k + 1].node == c)
    &&& forall|k: int| 0 < k < stack.len() ==> anon_edge(m, stack[k - 1].node, #[trigger] stack[k].node)
}

/// The nodes of the stack from frame `j` up form a path.
proof fn lemma_stack_path(m: Map<u64, Type>, stack: Seq<Frame>, j: int)
    requires
        0 <= j < stack.len(),
        forall|k: int| 0 < k < stack.len() ==> anon_edge(m, stack[k - 1].node, #[trigger] stack[k].node),
    ensures
        anon_path(m, stack_nodes(stack).subrange(j, stack.len() as int)),
        stack_nodes(stack).subrange(j, stack.len() as int)[0] == stack[j].node,
        stack_nodes(stack).subrange(j, stack.len() as int).last() == stack.last().node,
{
    let p = stack_nodes(stack).subrange(j, stack.len() as int);
    assert forall|i: int| 0 <= i < p.len() - 1 implies anon_edge(m, #[trigger] p[i], p[i + 1]) by {
        assert(p[i] == stack[j + i].node);
        assert(p[i + 1] == stack[j + i + 1].node);
    }
}

proof fn lemma_pending_total_pop(s: Seq<Frame>)
    requires
        s.len() > 0,
    ensures
        pending_total(s) == pending_total(s.drop_last()) + s.last().pending@.len(),
{
}

proof fn lemma_pending_total_push(s: Seq<Frame>, f: Frame)
    ensures
        pending_total(s.push(f)) == pending_total(s) + f.pending@.len(),
{
    assert(s.push(f).drop_last() == s);
}

proof fn lemma_pop_node(full: Seq<Frame>)
    requires
        full.len() > 0,
        stack_nodes(full).no_duplicates(),
    ensures
        stack_nodes(full).to_set().remove(full.last().node) == stack_nodes(full.drop_last()).to_set(),
        stack_nodes(full.drop_last()).no_duplicates(),
        stack_nodes(full) == stack_nodes(full.drop_last()).push(full.last().node),
{
    let u = full.last().node;
    let s0 = full.drop_last();
    assert(stack_nodes(full) =~= stack_nodes(s0).push(u));
    assert(!stack_nodes(s0).contains(u)) by {
        if stack_nodes(s0).contains(u) {
            let j = choose|j: int| 0 <= j < stack_nodes(s0).len() && #[trigger] stack_nodes(s0)[j] == u;
            assert(stack_nodes(full)[j] == u);
            assert(stack_nodes(full)[full.len() - 1] == u);
        }
    }
    assert(stack_nodes(full).to_set().remove(u) =~= stack_nodes(s0).to_set());
    assert forall|i: int, j: int| 0 <= i < j < stack_nodes(s0).len() implies stack_nodes(s0)[i] != stack_nodes(s0)[j] by {
        assert(stack_nodes(s0)[i] == stack_nodes(full)[i]);
        assert(stack_nodes(s0)[j] == stack_nodes(full)[j]);
    }
}

/// Finishing the top frame, whose children are all done, keeps the walk
/// consistent: its node leaves the path with the next rank.
#[verifier::rlimit(60)]
proof fn lemma_walk_finish(m: Map<u64, Type>, visited: Set<u64>, full: Seq<Frame>, fin: Map<u64, nat>, counter: nat)
    requires
        anon_walk_inv(m, visited, stack_nodes(full).to_set(), full, fin, counter),
        full.len() > 0,
        full.last().pending@.len() == 0,
    ensures
        anon_walk_inv(
            m,
            visited,
            stack_nodes(full).to_set().remove(full.last().node),
            full.drop_last(),
            fin.insert(full.last().node, counter),
            counter + 1,
        ),
{
    let u = full.last().node;
    let s0 = full.drop_last();
    let active = stack_nodes(full).to_set();
    let fin1 = fin.insert(u, counter);
    lemma_pop_node(full);
    assert(!fin.contains_key(u)) by {
        assert(stack_nodes(full)[full.len() - 1] == u);
        assert(stack_nodes(full).contains(u));
    }
    assert forall|c: u64| #[trigger] anon_edge(m, u, c) implies fin.contains_key(c) by {
        assert(anon_edge(m, full[full.len() - 1].node, c));
    }
    assert forall|k: int| 0 <= k < s0.len() implies #[trigger] stack_nodes(s0).take(k + 1) == stack_nodes(full).take(k + 1) by {
        assert(stack_nodes(s0).take(k + 1) =~= stack_nodes(full).take(k + 1));
    }
    assert forall|k: int| 0 <= k < s0.len() implies #[trigger] s0[k] == full[k] by {}
    assert forall|a: u64, c: u64|
        fin1.contains_key(a) && #[trigger] anon_edge(m, a, c) implies fin1.contains_key(c) && fin1[c] < fin1[a] by {
        if a == u {
            assert(fin.contains_key(c));
        } else {
            assert(fin.contains_key(a));
            assert(fin.contains_key(c));
        }
    }
    assert forall|k: int, c: u64|
        0 <= k < s0.len() && #[trigger] anon_edge(m, s0[k].node, c) implies s0[k].pending@.contains(c)
            || fin1.contains_key(c) || (k + 1 < s0.len() && s0[k + 1].node == c) by {
        assert(s0[k] == full[k]);
        assert(anon_edge(m, full[k].node, c));
    }
    assert forall|k: int, e: u64|
        0 <= k < s0.len() && #[trigger] s0[k].pending@.contains(e) implies anon_edge(m, s0[k].node, e)
            && !stack_nodes(s0).take(k + 1).contains(e) by {
        assert(s0[k] == full[k]);
        assert(full[k].pending@.contains(e));
    }
    assert forall|k: int| 0 < k < s0.len() implies anon_edge(m, s0[k - 1].node, #[trigger] s0[k].node) by {
        assert(s0[k] == full[k]);
        assert(s0[k - 1] == full[k - 1]);
    }
    assert forall|v: u64| #[trigger] fin1.contains_key(v) <==> (visited.contains(v) && !active.remove(u).contains(v)) by {
        if v == u {
            assert(active.contains(u));
        }
    }
    assert forall|v: u64| #[trigger] active.remove(u).contains(v) implies visited.contains(v) by {
        assert(active.contains(v));
    }
}

/// The child taken from the top frame is an anonymous child of its node
/// that is not on the path.
proof fn lemma_walk_child(m: Map<u64, Type>, visited: Set<u64>, active: Set<u64>, full: Seq<Frame>, fin: Map<u64, nat>, counter: nat)
    requires
        anon_walk_inv(m, visited, active, full, fin, counter),
        full.len() > 0,
        full.last().pending@.len() > 0,
    ensures
        anon_edge(m, full.last().node, full.last().pending@.last()),
        !active.contains(full.last().pending@.last()),
        !visited.contains(full.last().pending@.last()) || fin.contains_key(full.last().pending@.last()),
{
    let k = full.len() - 1;
    let child = full.last().pending@.last();
    assert(full[k].pending@[full[k].pending@.len() - 1] == child);
    assert(full[k].pending@.contains(child));
    assert(stack_nodes(full).take(k + 1) =~= stack_nodes(full));
}

/// Taking a child that is already finished keeps the walk consistent.
proof fn lemma_walk_skip(
    m: Map<u64, Type>,
    visited: Set<u64>,
    active: Set<u64>,
    full: Seq<Frame>,
    fin: Map<u64, nat>,
    counter: nat,
    top: Frame,
)
    requires
        anon_walk_inv(m, visited, active, full, fin, counter),
        full.len() > 0,
        full.last().pending@.len() > 0,
        top.node == full.last().node,
        top.pending@ == full.last().pending@.drop_last(),
        fin.contains_key(full.last().pending@.last()),
    ensures
        anon_walk_inv(m, visited, active, full.drop_last().push(top), fin, counter),
{
    let s = full.drop_last().push(top);
    let top_old = full.last();
    let child = top_old.pending@.last();
    assert(stack_nodes(s) =~= stack_nodes(full));
    assert forall|k: int| 0 <= k < full.len() - 1 implies #[trigger] s[k] == full[k] by {}
    assert forall|k: int, e: u64|
        0 <= k < s.len() && #[trigger] s[k].pending@.contains(e) implies anon_edge(m, s[k].node, e)
            && !stack_nodes(s).take(k + 1).contains(e) by {
        if k == s.len() - 1 {
            let q = choose|q: int| 0 <= q < top.pending@.len() && #[trigger] top.pending@[q] == e;
            assert(top_old.pending@[q] == e);
            assert(full[k].pending@.contains(e));
        } else {
            assert(s[k] == full[k]);
        }
    }
    assert forall|k: int, c: u64|
        0 <= k < s.len() && #[trigger] anon_edge(m, s[k].node, c) implies s[k].pending@.contains(c)
            || fin.contains_key(c) || (k + 1 < s.len() && s[k + 1].node == c) by {
        if k == s.len() - 1 {
            assert(anon_edge(m, full[k].node, c));
            if c != child && full[k].pending@.contains(c) {
                let q = choose|q: int| 0 <= q < top_old.pending@.len() && #[trigger] top_old.pending@[q] == c;
                assert(q < top_old.pending@.len() - 1);
                assert(top.pending@[q] == c);
            }
        } else {
            assert(s[k] == full[k]);
            assert(s[k + 1].node == full[k + 1].node);
        }
    }
    assert forall|k: int| 0 < k < s.len() implies anon_edge(m, s[k - 1].node, #[trigger] s[k].node) by {
        assert(s[k].node == full[k].node);
        assert(s[k - 1].node == full[k - 1].node);
    }
}

/// The stack after descending into an unvisited child.
pub open spec fn descended(full: Seq<Frame>, top: Frame, list: Vec<u64>) -> Seq<Frame> {
    full.drop_last().push(top).push(Frame { node: full.last().pending@.last(), pending: list })
}

/// Descending into an unvisited child keeps the walk consistent.
proof fn lemma_walk_descend(
    m: Map<u64, Type>,
    visited: Set<u64>,
    active: Set<u64>,
    full: Seq<Frame>,
    fin: Map<u64, nat>,
    counter: nat,
    top: Frame,
    list: Vec<u64>,
)
    requires
        anon_walk_inv(m, visited, active, full, fin, counter),
        full.len() > 0,
        full.last().pending@.len() > 0,
        top.node == full.last().node,
        top.pending@ == full.last().pending@.drop_last(),
        !visited.contains(full.last().pending@.last()),
        forall|c: u64| #[trigger] list@.contains(c) <==> anon_edge(m, full.last().pending@.last(), c),
        forall|c: u64| #[trigger] list@.contains(c) ==> !active.insert(full.last().pending@.last()).contains(c),
    ensures
        anon_walk_inv(
            m,
            visited.insert(full.last().pending@.last()),
            active.insert(full.last().pending@.last()),
            descended(full, top, list),
            fin,
            counter,
        ),
{
    let top_old = full.last();
    let child = top_old.pending@.last();
    let u = top.node;
    let s = descended(full, top, list);
    let visited1 = visited.insert(child);
    let active1 = active.insert(child);
    lemma_walk_child(m, visited, active, full, fin, counter);
    assert(stack_nodes(s) =~= stack_nodes(full).push(child));
    assert(active1 =~= stack_nodes(s).to_set());
    assert forall|k: int| 0 <= k < full.len() - 1 implies #[trigger] s[k] == full[k] by {}
    assert forall|k: int, e: u64|
        0 <= k < s.len() && #[trigger] s[k].pending@.contains(e) implies anon_edge(m, s[k].node, e)
            && !stack_nodes(s).take(k + 1).contains(e) by {
        if k == s.len() - 1 {
            assert(stack_nodes(s).take(k + 1) =~= stack_nodes(s));
        } else if k == s.len() - 2 {
            let q = choose|q: int| 0 <= q < top.pending@.len() && #[trigger] top.pending@[q] == e;
            assert(top_old.pending@[q] == e);
            assert(full[k].pending@.contains(e));
            assert(stack_nodes(s).take(k + 1) =~= stack_nodes(full).take(k + 1));
        } else {
            assert(s[k] == full[k]);
            assert(stack_nodes(s).take(k + 1) =~= stack_nodes(full).take(k + 1));
        }
    }
    assert forall|k: int, c: u64|
        0 <= k < s.len() && #[trigger] anon_edge(m, s[k].node, c) implies s[k].pending@.contains(c)
            || fin.contains_key(c) || (k + 1 < s.len() && s[k + 1].node == c) by {
        if k == s.len() - 2 {
            assert(anon_edge(m, full[k].node, c));
            if c != child && full[k].pending@.contains(c) {
                let q = choose|q: int| 0 <= q < top_old.pending@.len() && #[trigger] top_old.pending@[q] == c;
                assert(q < top_old.pending@.len() - 1);
                assert(top.pending@[q] == c);
            }
        } else if k < s.len() - 2 {
            assert(s[k] == full[k]);
            assert(s[k + 1].node == full[k + 1].node);
        }
    }
    assert forall|k: int| 0 < k < s.len() implies anon_edge(m, s[k - 1].node, #[trigger] s[k].node) by {
        if k == s.len() - 1 {
            assert(s[k - 1].node == u);
        } else {
            assert(s[k].node == full[k].node);
            assert(s[k - 1].node == full[k - 1].node);
        }
    }
    assert forall|v: u64| #[trigger] fin.contains_key(v) <==> (visited1.contains(v) && !active1.contains(v)) by {
        if v == child {
            assert(!fin.contains_key(child));
        }
    }
}

/// A child of the newly visited node that is on the path closes a cycle.
proof fn lemma_walk_cycle(
    m: Map<u64, Type>,
    visited: Set<u64>,
    active: Set<u64>,
    full: Seq<Frame>,
    fin: Map<u64, nat>,
    counter: nat,
    top: Frame,
    child: u64,
    c: u64,
)
    requires
        anon_walk_inv(m, visited, active, full, fin, counter),
        full.len() > 0,
        full.last().pending@.len() > 0,
        top.node == full.last().node,
        child == full.last().pending@.last(),
        anon_edge(m, child, c),
        active.insert(child).contains(c),
    ensures
        exists|p: Seq<u64>| anon_path(m, p) && p[0] == c && p.last() == child,
        !anon_acyclic(m),
{
    lemma_walk_child(m, visited, active, full, fin, counter);
    let s2 = full.drop_last().push(top).push(Frame { node: child, pending: top.pending });
    assert(stack_nodes(s2) =~= stack_nodes(full).push(child));
    assert(stack_nodes(s2).to_set().contains(c));
    let j = choose|j: int| 0 <= j < stack_nodes(s2).len() && #[trigger] stack_nodes(s2)[j] == c;
    assert forall|k: int| 0 < k < s2.len() implies anon_edge(m, s2[k - 1].node, #[trigger] s2[k].node) by {
        if k == s2.len() - 1 {
            assert(s2[k - 1].node == full.last().node);
        } else {
            assert(s2[k].node == full[k].node);
            assert(s2[k - 1].node == full[k - 1].node);
        }
    }
    lemma_stack_path(m, s2, j);
    let p = stack_nodes(s2).subrange(j, s2.len() as int);
    lemma_anon_cycle_unranked(m, child, c, p);
}

/// Reject a cycle that passes through no named type.
///
/// A named type terminates the expansion rendering performs, since a
/// reference to it only writes its name. An anonymous (built-in or
/// container) type has no name to stop at, so a cycle made up entirely of
/// anonymous types has no finite representation.
///
/// Succeeds exactly when no such cycle exists. On failure, `type_id`
/// refers to `child_id`, both anonymous, and `child_id` reaches `type_id`
/// through anonymous types.
pub fn check_anonymous_cycles(types: &BTreeMap<u64, Type>) -> (r: Result<(), Error>)
    requires
        closed(types@),
    ensures
        r is Ok <==> anon_acyclic(types@),
        r matches Err(e) ==> e matches Error::AnonymousCycle { type_id: t, child_id: c } && anon_edge(
            types@,
            t,
            c,
        ) && exists|p: Seq<u64>| anon_path(types@, p) && p[0] == c && p.last() == t,
{
    let ghost m = types@;
    let keys = sorted_keys(types);
    let mut visited: BTreeSet<u64> = BTreeSet::new();
    let mut active: BTreeSet<u64> = BTreeSet::new();
    let ghost mut fin: Map<u64, nat> = Map::empty();
    let ghost mut counter: nat = 0;
    let mut i: usize = 0;
    proof {
        lemma_u64_key_order();
        vstd::std_specs::btree::axiom_btree_map_view_finite_dom(*types);
        assert(stack_nodes(Seq::<Frame>::empty()).to_set() =~= Set::<u64>::empty());
        assert(visited@.len() == 0);
    }
    while i < keys.len()
        invariant
            m == types@,
            m.dom().finite(),
            closed(m),
            visited@.finite(),
            visited@.len() <= m.dom().len(),
            i <= keys@.len(),
            forall|k: u64| #[trigger] keys@.contains(k) <==> m.contains_key(k),
            anon_walk_inv(m, visited@, active@, Seq::empty(), fin, counter),
            forall|j: int| 0 <= j < i && !m[#[trigger] keys@[j]].spec_is_named() ==> fin.contains_key(keys@[j]),
        decreases keys@.len() - i,
    {
        let root = keys[i];
        proof {
            assert(keys@.contains(root));
        }
        let named = types.get(&root).unwrap().is_named();
        if !named && !visited.contains(&root) {
            proof {
                vstd::set_lib::lemma_len_subset(visited@.insert(root), m.dom());
            }
            visited.insert(root);
            active.insert(root);
            let mut stack: Vec<Frame> = Vec::new();
            stack.push(Frame { node: root, pending: Vec::new() });
            proof {
                assert(stack_nodes(stack@) =~= seq![root]);
                assert(active@ =~= stack_nodes(stack@).to_set());
            }
            let visit = anon_visit(types, root, &active);
            match visit {
                Err(c) => {
                    proof {
                        let p = seq![root];
                        assert(anon_path(m, p));
                        assert(active@.contains(c));
                        assert(c == root);
                        assert(!anon_acyclic(m)) by {
                            lemma_anon_cycle_unranked(m, root, c, p);
                        }
                    }
                    return Err(Error::AnonymousCycle { type_id: root, child_id: c });
                },
                Ok(list) => {
                    stack.set(0, Frame { node: root, pending: list });
                },
            }
            proof {
                assert(stack_nodes(stack@) =~= seq![root]);
                assert(anon_walk_inv(m, visited@, active@, stack@, fin, counter)) by {
                    assert forall|k: int, e: u64|
                        0 <= k < stack@.len() && #[trigger] stack@[k].pending@.contains(e) implies anon_edge(m, stack@[k].node, e)
                            && !stack_nodes(stack@).take(k + 1).contains(e) by {
                        assert(stack_nodes(stack@).take(k + 1) =~= seq![root]);
                        if e == root {
                            assert(active@.contains(e));
                        }
                    }
                }
            }
            while stack.len() > 0
                invariant
                    m == types@,
                    m.dom().finite(),
                    closed(m),
                    visited@.finite(),
                    visited@.len() <= m.dom().len(),
                    anon_walk_inv(m, visited@, active@, stack@, fin, counter),
                    stack@.len() > 0 ==> stack@[0].node == root,
                    visited@.contains(root),
                    i < keys@.len(),
                    forall|j: int| 0 <= j < i && !m[#[trigger] keys@[j]].spec_is_named() ==> fin.contains_key(keys@[j]),
                decreases m.dom().len() - visited@.len(), pending_total(stack@), stack@.len(),
            {
                let ghost full = stack@;
                let mut top = stack.pop().unwrap();
                let ghost top_old = top;
                proof {
                    assert(full.drop_last() == stack@);
                    assert(full.last() == top_old);
                    lemma_pending_total_pop(full);
                }
                let u = top.node;
                match top.pending.pop() {
                    None => {
                        active.remove(&u);
                        proof {
                            lemma_walk_finish(m, visited@, full, fin, counter);
                            fin = fin.insert(u, counter);
                            counter = counter + 1;
                        }
                    },
                    Some(child) => {
                        proof {
                            lemma_walk_child(m, visited@, active@, full, fin, counter);
                        }
                        if visited.contains(&child) {
                            stack.push(top);
                            proof {
                                lemma_walk_skip(m, visited@, active@, full, fin, counter, top);
                                lemma_pending_total_push(full.drop_last(), top);
                            }
                        } else {
                            stack.push(top);
                            proof {
                                vstd::set_lib::lemma_len_subset(visited@.insert(child), m.dom());
                                lemma_pending_total_push(full.drop_last(), top);
                            }
                            let ghost visited0 = visited@;
                            let ghost active0 = active@;
                            visited.insert(child);
                            active.insert(child);
                            let ghost s1 = stack@;
                            let visit = anon_visit(types, child, &active);
                            match visit {
                                Err(c) => {
                                    proof {
                                        lemma_walk_cycle(m, visited0, active0, full, fin, counter, top, child, c);
                                    }
                                    return Err(Error::AnonymousCycle { type_id: child, child_id: c });
                                },
                                Ok(list) => {
                                    proof {
                                        lemma_walk_descend(m, visited0, active0, full, fin, counter, top, list);
                                        lemma_pending_total_push(s1, Frame { node: child, pending: list });
                                    }
                                    stack.push(Frame { node: child, pending: list });
                                },
                            }
                        }
                    },
                }
            }
            proof {
                assert(stack@.len() == 0);
                assert(active@ =~= Set::<u64>::empty());
            }
        }
        proof {
            if !m[root].spec_is_named() {
                assert(visited@.contains(root));
                assert(fin.contains_key(root));
            }
            assert forall|j: int| 0 <= j < i + 1 && !m[#[trigger] keys@[j]].spec_is_named() implies fin.contains_key(keys@[j]) by {
                if j == i {
                    assert(keys@[j] == root);
                }
            }
        }
        i = i + 1;
    }
    proof {
        assert(anon_ranked(m, fin)) by {
            assert forall|a: u64, b: u64| #[trigger] anon_edge(m, a, b) implies fin.contains_key(a) && fin.contains_key(b)
                && fin[b] < fin[a] by {
                assert(keys@.contains(a));
                let j = choose|j: int| 0 <= j < keys@.len() && #[trigger] keys@[j] == a;
                assert(!m[keys@[j]].spec_is_named());
            }
        }
    }
    Ok(())
}

/// The ID `f` gives the box around `c`.
pub open spec fn box_of<F: Fn(&u64) -> u64>(f: F, c: u64) -> u64 {
    choose|r: u64| call_ensures(f, (&c,), r)
}

/// `f` mints box IDs properly for the graph `m`, for every type that lies
/// on a containment cycle (the only types that get boxes): each ID is
/// fresh (no type of `m` has it), the same child always gets the same ID,
/// and different children get different IDs.
pub open spec fn box_ids_fresh<F: Fn(&u64) -> u64>(f: F, m: Map<u64, Type>) -> bool {
    &&& forall|c: u64, r: u64| on_contains_cycle(m, c) && #[trigger] call_ensures(f, (&c,), r) ==> !m.contains_key(r)
    &&& forall|c: u64, r1: u64, r2: u64|
        on_contains_cycle(m, c) && #[trigger] call_ensures(f, (&c,), r1) && #[trigger] call_ensures(f, (&c,), r2) ==> r1 == r2
    &&& forall|c1: u64, c2: u64, r: u64|
        on_contains_cycle(m, c1) && on_contains_cycle(m, c2) && #[trigger] call_ensures(f, (&c1,), r) && #[trigger] call_ensures(
            f,
            (&c2,),
            r,
        ) ==> c1 == c2
}

/// `f` may be called on every type that lies on a containment cycle of
/// `m`, which are the only types that get boxes.
pub open spec fn box_ids_callable<F: Fn(&u64) -> u64>(f: F, m: Map<u64, Type>) -> bool {
    forall|c: u64| on_contains_cycle(m, c) ==> #[trigger] call_requires(f, (&c,))
}

/// The types `m` holds that `m0` did not: the boxes inserted so far.
pub open spec fn boxes(m0: Map<u64, Type>, m: Map<u64, Type>) -> Set<u64> {
    m.dom().difference(m0.dom())
}

/// Every box in `m` wraps a type of `m0` that lies on a containment cycle,
/// under the ID `f` gives it.
pub open spec fn boxes_ok<F: Fn(&u64) -> u64>(f: F, m0: Map<u64, Type>, m: Map<u64, Type>) -> bool {
    forall|b: u64| #[trigger] boxes(m0, m).contains(b) ==> {
        &&& m[b] is Box
        &&& m0.contains_key(m[b]->Box_0)
        &&& on_contains_cycle(m0, m[b]->Box_0)
        &&& call_ensures(f, (&m[b]->Box_0,), b)
    }
}

/// Type `u` of `m` is type `u` of `m0` with some contained children, each
/// on a cycle, replaced by a box around it; everything else is as it was.
pub open spec fn rewired(m0: Map<u64, Type>, m: Map<u64, Type>, u: u64) -> bool {
    &&& m.contains_key(u)
    &&& m[u].agrees_except_ids(m0[u])
    &&& m[u].holds_inline() == m0[u].holds_inline()
    &&& m[u].spec_contained().len() == m0[u].spec_contained().len()
    &&& forall|i: int| 0 <= i < m0[u].spec_contained().len() ==> #[trigger] m[u].spec_contained()[i] == m0[u].spec_contained()[i]
        || (boxes(m0, m).contains(m[u].spec_contained()[i]) && m[m[u].spec_contained()[i]] == Type::Box(m0[u].spec_contained()[i]))
    &&& !m0[u].holds_inline() ==> m[u] == m0[u]
}

/// What breaking the cycles of `m0` with box IDs from `f` produced `m`:
/// every type of `m0` is rewired, every new type is a proper box, every
/// ID refers to a type, and no containment cycle is left.
pub open spec fn cycles_broken<F: Fn(&u64) -> u64>(f: F, m0: Map<u64, Type>, m: Map<u64, Type>) -> bool {
    &&& m0.dom().subset_of(m.dom())
    &&& boxes_ok(f, m0, m)
    &&& forall|u: u64| #[trigger] m0.contains_key(u) ==> rewired(m0, m, u)
    &&& closed(m)
    &&& contains_acyclic(m)
}

proof fn lemma_agrees_trans(a: Type, b: Type, c: Type)
    requires
        a.agrees_except_ids(b),
        b.agrees_except_ids(c),
    ensures
        a.agrees_except_ids(c),
{
    match (a, b, c) {
        (Type::Enum(x), Type::Enum(y), Type::Enum(z)) => {
            assert forall|i: int| 0 <= i < x.variants@.len() implies crate::build::variant_agrees(#[trigger] x.variants@[i], z.variants@[i]) by {
                assert(crate::build::variant_agrees(x.variants@[i], y.variants@[i]));
                assert(crate::build::variant_agrees(y.variants@[i], z.variants@[i]));
                match (x.variants@[i].details, y.variants@[i].details, z.variants@[i].details) {
                    (crate::build::enums::VariantDetails::Struct(p), crate::build::enums::VariantDetails::Struct(q), crate::build::enums::VariantDetails::Struct(r)) => {
                        assert forall|k: int| 0 <= k < p@.len() implies #[trigger] p@[k].rust_name == r@[k].rust_name && p@[k].json_name == r@[k].json_name
                            && p@[k].state == r@[k].state && p@[k].description == r@[k].description by {
                            assert(p@[k].rust_name == q@[k].rust_name);
                            assert(q@[k].rust_name == r@[k].rust_name);
                        }
                    },
                    _ => {},
                }
            }
        },
        (Type::Struct(x), Type::Struct(y), Type::Struct(z)) => {
            assert forall|k: int| 0 <= k < x.properties@.len() implies #[trigger] x.properties@[k].rust_name == z.properties@[k].rust_name
                && x.properties@[k].json_name == z.properties@[k].json_name && x.properties@[k].state == z.properties@[k].state
                && x.properties@[k].description == z.properties@[k].description by {
                assert(x.properties@[k].rust_name == y.properties@[k].rust_name);
                assert(y.properties@[k].rust_name == z.properties@[k].rust_name);
            }
        },
        _ => {},
    }
}

proof fn lemma_agrees_refl(a: Type)
    ensures
        a.agrees_except_ids(a),
{
}

/// Replace each contained child of `u` that is on the current path by a
/// box around it, minted by `make_box_id`, and return the other contained
/// children, in order.
fn snip_cycles<F: Fn(&u64) -> u64>(
    types: &mut BTreeMap<u64, Type>,
    u: u64,
    active: &BTreeSet<u64>,
    make_box_id: &F,
    Ghost(m0): Ghost<Map<u64, Type>>,
) -> (descend: Vec<u64>)
    requires
        m0.dom().subset_of(old(types)@.dom()),
        m0.contains_key(u),
        old(types)@[u] == m0[u],
        closed(m0),
        box_ids_fresh(*make_box_id, m0),
        box_ids_callable(*make_box_id, m0),
        boxes_ok(*make_box_id, m0, old(types)@),
        forall|c: u64| active@.contains(c) && #[trigger] contains_edge(m0, u, c) ==> on_contains_cycle(m0, c),
    ensures
        m0.dom().subset_of(final(types)@.dom()),
        boxes_ok(*make_box_id, m0, final(types)@),
        forall|x: u64| x != u && #[trigger] old(types)@.contains_key(x) ==> final(types)@.contains_key(x)
            && final(types)@[x] == old(types)@[x],
        rewired(m0, final(types)@, u),
        forall|e: u64| #[trigger] descend@.contains(e) <==> (m0[u].spec_contained().contains(e) && !active@.contains(e)),
        forall|e: u64| #[trigger] final(types)@[u].spec_contained().contains(e) ==> boxes(m0, final(types)@).contains(e)
            || descend@.contains(e),
{
    proof {
        lemma_u64_key_order();
    }
    let ghost old_m = types@;
    let mut t = types.remove(&u).unwrap();
    let contained = t.contained_children();
    let ghost l = contained@;
    let mut descend: Vec<u64> = Vec::new();
    let mut j: usize = 0;
    proof {
        lemma_agrees_refl(t);
        assert(boxes(m0, types@) =~= boxes(m0, old_m));
        assert forall|x: u64| #[trigger] boxes(m0, types@).contains(x) implies {
            &&& types@[x] is Box
            &&& m0.contains_key(types@[x]->Box_0)
            &&& on_contains_cycle(m0, types@[x]->Box_0)
            &&& call_ensures(*make_box_id, (&types@[x]->Box_0,), x)
        } by {
            assert(boxes(m0, old_m).contains(x));
        }
        assert(types@.dom() =~= old_m.dom().remove(u).union(boxes(m0, types@)));
    }
    while j < contained.len()
        invariant
            l == contained@,
            l == m0[u].spec_contained(),
            j <= l.len(),
            m0.contains_key(u),
            closed(m0),
            box_ids_fresh(*make_box_id, m0),
            box_ids_callable(*make_box_id, m0),
            forall|c: u64| active@.contains(c) && #[trigger] contains_edge(m0, u, c) ==> on_contains_cycle(m0, c),
            t.agrees_except_ids(m0[u]),
            t.holds_inline() == m0[u].holds_inline(),
            !m0[u].holds_inline() ==> t == m0[u],
            t.spec_contained().len() == l.len(),
            forall|i: int| 0 <= i < l.len() ==> #[trigger] t.spec_contained()[i] == if l.take(j as int).contains(l[i])
                && active@.contains(l[i]) {
                box_of(*make_box_id, l[i])
            } else {
                l[i]
            },
            forall|i: int| 0 <= i < l.len() && l.take(j as int).contains(l[i]) && active@.contains(l[i]) ==> {
                &&& boxes(m0, types@).contains(box_of(*make_box_id, l[i]))
                &&& types@[box_of(*make_box_id, l[i])] == Type::Box(l[i])
            },
            !types@.contains_key(u),
            types@.dom() == old_m.dom().remove(u).union(boxes(m0, types@)),
            forall|x: u64| x != u && #[trigger] old_m.contains_key(x) ==> types@.contains_key(x) && types@[x] == old_m[x],
            m0.dom().remove(u).subset_of(types@.dom()),
            boxes_ok(*make_box_id, m0, types@),
            forall|e: u64| #[trigger] descend@.contains(e) <==> (l.take(j as int).contains(e) && !active@.contains(e)),
        decreases l.len() - j,
    {
        let c = contained[j];
        proof {
            assert(l.contains(c));
            assert(contains_edge(m0, u, c));
        }
        let ghost t0 = t;
        let ghost types0 = types@;
        if active.contains(&c) {
            proof {
                assert(on_contains_cycle(m0, c));
                assert(call_requires(*make_box_id, (&c,)));
            }
            let b = make_box_id(&c);
            proof {
                assert(call_ensures(*make_box_id, (&c,), b));
                assert(box_of(*make_box_id, c) == b);
                assert(!m0.contains_key(b));
                assert(b != u);
                if types0.contains_key(b) {
                    assert(boxes(m0, types0).contains(b));
                    assert(call_ensures(*make_box_id, (&types0[b]->Box_0,), b));
                    assert(types0[b]->Box_0 == c);
                    assert(types0[b] == Type::Box(c));
                }
            }
            types.insert(b, Type::Box(c));
            t.replace_contained(c, b);
            proof {
                lemma_agrees_trans(t, t0, m0[u]);
                assert(m0[u].spec_contained().contains(c));
                assert(m0.contains_key(c)) by {
                    assert(m0[u].holds_inline());
                    assert(m0[u].spec_children().contains(c));
                }
                assert forall|i: int| 0 <= i < l.len() implies #[trigger] t.spec_contained()[i] == if l.take(j + 1).contains(l[i])
                    && active@.contains(l[i]) {
                    box_of(*make_box_id, l[i])
                } else {
                    l[i]
                } by {
                    assert(t.spec_contained()[i] == replace_id(c, b, t0.spec_contained()[i]));
                    if l.take(j as int).contains(l[i]) && active@.contains(l[i]) {
                        assert(l.take(j + 1).contains(l[i])) by {
                            let k = choose|k: int| 0 <= k < j && #[trigger] l.take(j as int)[k] == l[i];
                            assert(l.take(j + 1)[k] == l[i]);
                        }
                        assert(boxes(m0, types0).contains(box_of(*make_box_id, l[i])));
                        assert(t0.spec_contained()[i] != c);
                    } else if l[i] == c {
                        assert(l.take(j + 1)[j as int] == c);
                    } else {
                        assert(!l.take(j + 1).contains(l[i]) || !active@.contains(l[i])) by {
                            if l.take(j + 1).contains(l[i]) && active@.contains(l[i]) {
                                let k = choose|k: int| 0 <= k < j + 1 && #[trigger] l.take(j + 1)[k] == l[i];
                                assert(k != j);
                                assert(l.take(j as int)[k] == l[i]);
                            }
                        }
                    }
                }
                assert forall|i: int| 0 <= i < l.len() && l.take(j + 1).contains(l[i]) && active@.contains(l[i]) implies {
                    &&& boxes(m0, types@).contains(box_of(*make_box_id, l[i]))
                    &&& types@[box_of(*make_box_id, l[i])] == Type::Box(l[i])
                } by {
                    if l[i] != c {
                        let k = choose|k: int| 0 <= k < j + 1 && #[trigger] l.take(j + 1)[k] == l[i];
                        assert(k != j);
                        assert(l.take(j as int)[k] == l[i]);
                        assert(box_of(*make_box_id, l[i]) != b) by {
                            assert(call_ensures(*make_box_id, (&l[i],), box_of(*make_box_id, l[i])));
                        }
                    }
                }
                assert(types@.dom() =~= old_m.dom().remove(u).union(boxes(m0, types@)));
                assert forall|x: u64| #[trigger] boxes(m0, types@).contains(x) implies {
                    &&& types@[x] is Box
                    &&& m0.contains_key(types@[x]->Box_0)
                    &&& on_contains_cycle(m0, types@[x]->Box_0)
                    &&& call_ensures(*make_box_id, (&types@[x]->Box_0,), x)
                } by {
                    if x != b {
                        assert(boxes(m0, types0).contains(x));
                    }
                }
            }
        } else {
            descend.push(c);
            proof {
                assert forall|i: int| 0 <= i < l.len() implies #[trigger] t.spec_contained()[i] == if l.take(j + 1).contains(l[i])
                    && active@.contains(l[i]) {
                    box_of(*make_box_id, l[i])
                } else {
                    l[i]
                } by {
                    if l.take(j + 1).contains(l[i]) && active@.contains(l[i]) {
                        let k = choose|k: int| 0 <= k < j + 1 && #[trigger] l.take(j + 1)[k] == l[i];
                        assert(k != j);
                        assert(l.take(j as int)[k] == l[i]);
                    }
                    if l.take(j as int).contains(l[i]) {
                        let k = choose|k: int| 0 <= k < j && #[trigger] l.take(j as int)[k] == l[i];
                        assert(l.take(j + 1)[k] == l[i]);
                    }
                }
                assert forall|i: int| 0 <= i < l.len() && l.take(j + 1).contains(l[i]) && active@.contains(l[i]) implies {
                    &&& boxes(m0, types@).contains(box_of(*make_box_id, l[i]))
                    &&& types@[box_of(*make_box_id, l[i])] == Type::Box(l[i])
                } by {
                    let k = choose|k: int| 0 <= k < j + 1 && #[trigger] l.take(j + 1)[k] == l[i];
                    assert(k != j);
                    assert(l.take(j as int)[k] == l[i]);
                }
            }
        }
        proof {
            assert forall|e: u64| #[trigger] descend@.contains(e) <==> (l.take(j + 1).contains(e) && !active@.contains(e)) by {
                if l.take(j + 1).contains(e) {
                    let k = choose|k: int| 0 <= k < j + 1 && #[trigger] l.take(j + 1)[k] == e;
                    if k < j {
                        assert(l.take(j as int)[k] == e);
                    }
                }
                if l.take(j as int).contains(e) {
                    let k = choose|k: int| 0 <= k < j && #[trigger] l.take(j as int)[k] == e;
                    assert(l.take(j + 1)[k] == e);
                }
                if e == c {
                    assert(l.take(j + 1)[j as int] == e);
                }
            }
        }
        j = j + 1;
    }
    let ghost before = types@;
    types.insert(u, t);
    proof {
        assert(l.take(l.len() as int) == l);
        assert(boxes(m0, types@) =~= boxes(m0, before));
        assert forall|i: int| 0 <= i < m0[u].spec_contained().len() implies #[trigger] types@[u].spec_contained()[i] == m0[u].spec_contained()[i]
            || (boxes(m0, types@).contains(types@[u].spec_contained()[i]) && types@[types@[u].spec_contained()[i]] == Type::Box(
            m0[u].spec_contained()[i],
        )) by {
            assert(types@[u] == t);
        }
        assert forall|e: u64| #[trigger] types@[u].spec_contained().contains(e) implies boxes(m0, types@).contains(e)
            || descend@.contains(e) by {
            let i = choose|i: int| 0 <= i < t.spec_contained().len() && #[trigger] t.spec_contained()[i] == e;
            if !(l.contains(l[i]) && active@.contains(l[i])) {
                assert(l.contains(l[i]));
            }
        }
        assert(m0.dom().subset_of(types@.dom()));
    }
    descend
}

/// The cycle-breaking walk's state is consistent: the graph `m` is `m0`
/// with the visited types rewired and proper boxes added, unvisited types
/// untouched; the stack is a path of containment edges of `m0` whose
/// nodes are `active`; finished types carry ranks below `counter` that
/// fall along every containment edge of `m` not into a box; and each
/// frame holds every contained child of its node that is neither a box,
/// finished, nor the next frame's node.
pub open spec fn break_walk_inv<F: Fn(&u64) -> u64>(
    f: F,
    m0: Map<u64, Type>,
    m: Map<u64, Type>,
    visited: Set<u64>,
    active: Set<u64>,
    stack: Seq<Frame>,
    fin: Map<u64, nat>,
    counter: nat,
) -> bool {
    &&& closed(m0)
    &&& m0.dom().subset_of(m.dom())
    &&& boxes_ok(f, m0, m)
    &&& forall|u: u64| m0.contains_key(u) && !visited.contains(u) ==> #[trigger] m[u] == m0[u]
    &&& forall|u: u64| #[trigger] visited.contains(u) ==> m0.contains_key(u) && rewired(m0, m, u)
    &&& active == stack_nodes(stack).to_set()
    &&& stack_nodes(stack).no_duplicates()
    &&& forall|v: u64| #[trigger] active.contains(v) ==> visited.contains(v)
    &&& forall|v: u64| #[trigger] fin.contains_key(v) <==> (visited.contains(v) && !active.contains(v))
    &&& forall|v: u64| #[trigger] fin.contains_key(v) ==> fin[v] < counter
    &&& forall|a: u64, e: u64|
        fin.contains_key(a) && #[trigger] m[a].spec_contained().contains(e) ==> boxes(m0, m).contains(e) || (
        fin.contains_key(e) && fin[e] < fin[a])
    &&& forall|k: int, e: u64|
        0 <= k < stack.len() && #[trigger] stack[k].pending@.contains(e) ==> contains_edge(m0, stack[k].node, e)
            && m0.contains_key(e) && !stack_nodes(stack).take(k + 1).contains(e)
    &&& forall|k: int, e: u64|
        0 <= k < stack.len() && #[trigger] m[stack[k].node].spec_contained().contains(e) ==> boxes(m0, m).contains(e)
            || stack[k].pending@.contains(e) || fin.contains_key(e) || (k + 1 < stack.len() && stack[k + 1].node == e)
    &&& forall|k: int| 0 < k < stack.len() ==> contains_edge(m0, stack[k - 1].node, #[trigger] stack[k].node)
}

/// A containment edge from the top of the stack back to a node on it
/// closes a cycle through that node.
proof fn lemma_contains_stack_cycle(m0: Map<u64, Type>, stack: Seq<Frame>, c: u64)
    requires
        stack.len() > 0,
        forall|k: int| 0 < k < stack.len() ==> contains_edge(m0, stack[k - 1].node, #[trigger] stack[k].node),
        stack_nodes(stack).contains(c),
        contains_edge(m0, stack.last().node, c),
    ensures
        on_contains_cycle(m0, c),
{
    let j = choose|j: int| 0 <= j < stack_nodes(stack).len() && #[trigger] stack_nodes(stack)[j] == c;
    let p = stack_nodes(stack).subrange(j, stack.len() as int).push(c);
    assert forall|i: int| 0 <= i < p.len() - 1 implies contains_edge(m0, #[trigger] p[i], p[i + 1]) by {
        if i < p.len() - 2 {
            assert(p[i] == stack[j + i].node);
            assert(p[i + 1] == stack[j + i + 1].node);
        } else {
            assert(p[i] == stack.last().node);
        }
    }
    assert(p[0] == c);
    assert(p.last() == c);
    assert(contains_path(m0, p) && p.len() >= 2 && p[0] == c && p.last() == c);
}

/// Finishing the top frame keeps the cycle-breaking walk consistent.
proof fn lemma_break_finish<F: Fn(&u64) -> u64>(
    f: F,
    m0: Map<u64, Type>,
    m: Map<u64, Type>,
    visited: Set<u64>,
    full: Seq<Frame>,
    fin: Map<u64, nat>,
    counter: nat,
)
    requires
        break_walk_inv(f, m0, m, visited, stack_nodes(full).to_set(), full, fin, counter),
        full.len() > 0,
        full.last().pending@.len() == 0,
    ensures
        break_walk_inv(
            f,
            m0,
            m,
            visited,
            stack_nodes(full).to_set().remove(full.last().node),
            full.drop_last(),
            fin.insert(full.last().node, counter),
            counter + 1,
        ),
{
    let u = full.last().node;
    let s0 = full.drop_last();
    let active = stack_nodes(full).to_set();
    let fin1 = fin.insert(u, counter);
    lemma_pop_node(full);
    assert(!fin.contains_key(u)) by {
        assert(stack_nodes(full)[full.len() - 1] == u);
        assert(stack_nodes(full).contains(u));
    }
    assert forall|e: u64| #[trigger] m[u].spec_contained().contains(e) implies boxes(m0, m).contains(e) || fin.contains_key(e) by {
        assert(m[full[full.len() - 1].node].spec_contained().contains(e));
    }
    assert forall|k: int| 0 <= k < s0.len() implies #[trigger] stack_nodes(s0).take(k + 1) == stack_nodes(full).take(k + 1) by {
        assert(stack_nodes(s0).take(k + 1) =~= stack_nodes(full).take(k + 1));
    }
    assert forall|k: int| 0 <= k < s0.len() implies #[trigger] s0[k] == full[k] by {}
    assert forall|a: u64, e: u64|
        fin1.contains_key(a) && #[trigger] m[a].spec_contained().contains(e) implies boxes(m0, m).contains(e) || (
        fin1.contains_key(e) && fin1[e] < fin1[a]) by {
        if a == u {
            if !boxes(m0, m).contains(e) {
                assert(fin.contains_key(e));
            }
        } else {
            assert(fin.contains_key(a));
        }
    }
    assert forall|k: int, e: u64|
        0 <= k < s0.len() && #[trigger] m[s0[k].node].spec_contained().contains(e) implies boxes(m0, m).contains(e)
            || s0[k].pending@.contains(e) || fin1.contains_key(e) || (k + 1 < s0.len() && s0[k + 1].node == e) by {
        assert(s0[k] == full[k]);
        assert(m[full[k].node].spec_contained().contains(e));
    }
    assert forall|k: int, e: u64|
        0 <= k < s0.len() && #[trigger] s0[k].pending@.contains(e) implies contains_edge(m0, s0[k].node, e)
            && m0.contains_key(e) && !stack_nodes(s0).take(k + 1).contains(e) by {
        assert(s0[k] == full[k]);
        assert(full[k].pending@.contains(e));
    }
    assert forall|k: int| 0 < k < s0.len() implies contains_edge(m0, s0[k - 1].node, #[trigger] s0[k].node) by {
        assert(s0[k] == full[k]);
        assert(s0[k - 1] == full[k - 1]);
    }
    assert forall|v: u64| #[trigger] fin1.contains_key(v) <==> (visited.contains(v) && !active.remove(u).contains(v)) by {
        if v == u {
            assert(active.contains(u));
        }
    }
    assert forall|v: u64| #[trigger] active.remove(u).contains(v) implies visited.contains(v) by {
        assert(active.contains(v));
    }
}

/// The child taken from the top frame is a containment child of its node
/// in `m0`, not on the path, and either unvisited or finished.
proof fn lemma_break_child<F: Fn(&u64) -> u64>(
    f: F,
    m0: Map<u64, Type>,
    m: Map<u64, Type>,
    visited: Set<u64>,
    active: Set<u64>,
    full: Seq<Frame>,
    fin: Map<u64, nat>,
    counter: nat,
)
    requires
        break_walk_inv(f, m0, m, visited, active, full, fin, counter),
        full.len() > 0,
        full.last().pending@.len() > 0,
    ensures
        contains_edge(m0, full.last().node, full.last().pending@.last()),
        m0.contains_key(full.last().pending@.last()),
        !active.contains(full.last().pending@.last()),
        !visited.contains(full.last().pending@.last()) || fin.contains_key(full.last().pending@.last()),
{
    let k = full.len() - 1;
    let child = full.last().pending@.last();
    assert(full[k].pending@[full[k].pending@.len() - 1] == child);
    assert(full[k].pending@.contains(child));
    assert(stack_nodes(full).take(k + 1) =~= stack_nodes(full));
}

/// Taking a child that is already finished keeps the walk consistent.
proof fn lemma_break_skip<F: Fn(&u64) -> u64>(
    f: F,
    m0: Map<u64, Type>,
    m: Map<u64, Type>,
    visited: Set<u64>,
    active: Set<u64>,
    full: Seq<Frame>,
    fin: Map<u64, nat>,
    counter: nat,
    top: Frame,
)
    requires
        break_walk_inv(f, m0, m, visited, active, full, fin, counter),
        full.len() > 0,
        full.last().pending@.len() > 0,
        top.node == full.last().node,
        top.pending@ == full.last().pending@.drop_last(),
        fin.contains_key(full.last().pending@.last()),
    ensures
        break_walk_inv(f, m0, m, visited, active, full.drop_last().push(top), fin, counter),
{
    let s = full.drop_last().push(top);
    let top_old = full.last();
    let child = top_old.pending@.last();
    assert(stack_nodes(s) =~= stack_nodes(full));
    assert forall|k: int| 0 <= k < full.len() - 1 implies #[trigger] s[k] == full[k] by {}
    assert forall|k: int, e: u64|
        0 <= k < s.len() && #[trigger] s[k].pending@.contains(e) implies contains_edge(m0, s[k].node, e)
            && m0.contains_key(e) && !stack_nodes(s).take(k + 1).contains(e) by {
        if k == s.len() - 1 {
            let q = choose|q: int| 0 <= q < top.pending@.len() && #[trigger] top.pending@[q] == e;
            assert(top_old.pending@[q] == e);
            assert(full[k].pending@.contains(e));
        } else {
            assert(s[k] == full[k]);
        }
    }
    assert forall|k: int, e: u64|
        0 <= k < s.len() && #[trigger] m[s[k].node].spec_contained().contains(e) implies boxes(m0, m).contains(e)
            || s[k].pending@.contains(e) || fin.contains_key(e) || (k + 1 < s.len() && s[k + 1].node == e) by {
        if k == s.len() - 1 {
            assert(m[full[k].node].spec_contained().contains(e));
            if e != child && full[k].pending@.contains(e) {
                let q = choose|q: int| 0 <= q < top_old.pending@.len() && #[trigger] top_old.pending@[q] == e;
                assert(q < top_old.pending@.len() - 1);
                assert(top.pending@[q] == e);
            }
        } else {
            assert(s[k] == full[k]);
            assert(s[k + 1].node == full[k + 1].node);
        }
    }
    assert forall|k: int| 0 < k < s.len() implies contains_edge(m0, s[k - 1].node, #[trigger] s[k].node) by {
        assert(s[k].node == full[k].node);
        assert(s[k - 1].node == full[k - 1].node);
    }
}

/// The child about to be visited satisfies what snipping its cycles
/// requires.
proof fn lemma_break_before_snip<F: Fn(&u64) -> u64>(
    f: F,
    m0: Map<u64, Type>,
    m: Map<u64, Type>,
    visited: Set<u64>,
    active: Set<u64>,
    full: Seq<Frame>,
    fin: Map<u64, nat>,
    counter: nat,
    top: Frame,
)
    requires
        break_walk_inv(f, m0, m, visited, active, full, fin, counter),
        full.len() > 0,
        full.last().pending@.len() > 0,
        top.node == full.last().node,
        !visited.contains(full.last().pending@.last()),
    ensures
        m[full.last().pending@.last()] == m0[full.last().pending@.last()],
        forall|c: u64|
            active.insert(full.last().pending@.last()).contains(c) && #[trigger] contains_edge(
                m0,
                full.last().pending@.last(),
                c,
            ) ==> on_contains_cycle(m0, c),
{
    lemma_break_child(f, m0, m, visited, active, full, fin, counter);
    let child = full.last().pending@.last();
    let s2 = full.drop_last().push(top).push(Frame { node: child, pending: top.pending });
    assert(stack_nodes(s2) =~= stack_nodes(full).push(child));
    assert forall|k: int| 0 < k < s2.len() implies contains_edge(m0, s2[k - 1].node, #[trigger] s2[k].node) by {
        if k == s2.len() - 1 {
            assert(s2[k - 1].node == full.last().node);
        } else {
            assert(s2[k].node == full[k].node);
            assert(s2[k - 1].node == full[k - 1].node);
        }
    }
    assert forall|c: u64|
        active.insert(child).contains(c) && #[trigger] contains_edge(m0, child, c) implies on_contains_cycle(m0, c) by {
        assert(stack_nodes(s2).to_set().contains(c));
        lemma_contains_stack_cycle(m0, s2, c);
    }
}

/// Descending into an unvisited child, whose cycles `m1` has snipped,
/// keeps the walk consistent.
proof fn lemma_break_descend<F: Fn(&u64) -> u64>(
    f: F,
    m0: Map<u64, Type>,
    m: Map<u64, Type>,
    m1: Map<u64, Type>,
    visited: Set<u64>,
    active: Set<u64>,
    full: Seq<Frame>,
    fin: Map<u64, nat>,
    counter: nat,
    top: Frame,
    list: Vec<u64>,
)
    requires
        break_walk_inv(f, m0, m, visited, active, full, fin, counter),
        full.len() > 0,
        full.last().pending@.len() > 0,
        top.node == full.last().node,
        top.pending@ == full.last().pending@.drop_last(),
        !visited.contains(full.last().pending@.last()),
        m0.dom().subset_of(m1.dom()),
        boxes_ok(f, m0, m1),
        forall|x: u64| x != full.last().pending@.last() && #[trigger] m.contains_key(x) ==> m1.contains_key(x) && m1[x] == m[x],
        rewired(m0, m1, full.last().pending@.last()),
        forall|e: u64| #[trigger] list@.contains(e) <==> (m0[full.last().pending@.last()].spec_contained().contains(e)
            && !active.insert(full.last().pending@.last()).contains(e)),
        forall|e: u64| #[trigger] m1[full.last().pending@.last()].spec_contained().contains(e) ==> boxes(m0, m1).contains(e)
            || list@.contains(e),
    ensures
        break_walk_inv(
            f,
            m0,
            m1,
            visited.insert(full.last().pending@.last()),
            active.insert(full.last().pending@.last()),
            descended(full, top, list),
            fin,
            counter,
        ),
{
    let top_old = full.last();
    let child = top_old.pending@.last();
    let u = top.node;
    let s = descended(full, top, list);
    let visited1 = visited.insert(child);
    let active1 = active.insert(child);
    lemma_break_child(f, m0, m, visited, active, full, fin, counter);
    assert(boxes(m0, m).subset_of(boxes(m0, m1)));
    assert(stack_nodes(s) =~= stack_nodes(full).push(child));
    assert(active1 =~= stack_nodes(s).to_set());
    assert forall|k: int| 0 <= k < full.len() - 1 implies #[trigger] s[k] == full[k] by {}
    assert forall|x: u64| #[trigger] visited1.contains(x) implies m0.contains_key(x) && rewired(m0, m1, x) by {
        if x != child {
            assert(rewired(m0, m, x));
            assert(m1[x] == m[x]);
            assert forall|i: int| 0 <= i < m0[x].spec_contained().len() implies #[trigger] m1[x].spec_contained()[i]
                == m0[x].spec_contained()[i] || (boxes(m0, m1).contains(m1[x].spec_contained()[i]) && m1[m1[x].spec_contained()[i]]
                == Type::Box(m0[x].spec_contained()[i])) by {
                if m1[x].spec_contained()[i] != m0[x].spec_contained()[i] {
                    assert(boxes(m0, m).contains(m[x].spec_contained()[i]));
                }
            }
        }
    }
    assert forall|x: u64| m0.contains_key(x) && !visited1.contains(x) implies #[trigger] m1[x] == m0[x] by {
        assert(m[x] == m0[x]);
    }
    assert forall|a: u64, e: u64|
        fin.contains_key(a) && #[trigger] m1[a].spec_contained().contains(e) implies boxes(m0, m1).contains(e) || (
        fin.contains_key(e) && fin[e] < fin[a]) by {
        assert(a != child);
        assert(m1[a] == m[a]);
    }
    assert forall|k: int, e: u64|
        0 <= k < s.len() && #[trigger] s[k].pending@.contains(e) implies contains_edge(m0, s[k].node, e)
            && m0.contains_key(e) && !stack_nodes(s).take(k + 1).contains(e) by {
        if k == s.len() - 1 {
            assert(stack_nodes(s).take(k + 1) =~= stack_nodes(s));
            assert(m0[child].spec_contained().contains(e));
            assert(m0[child].spec_children().contains(e));
        } else if k == s.len() - 2 {
            let q = choose|q: int| 0 <= q < top.pending@.len() && #[trigger] top.pending@[q] == e;
            assert(top_old.pending@[q] == e);
            assert(full[k].pending@.contains(e));
            assert(stack_nodes(s).take(k + 1) =~= stack_nodes(full).take(k + 1));
        } else {
            assert(s[k] == full[k]);
            assert(stack_nodes(s).take(k + 1) =~= stack_nodes(full).take(k + 1));
        }
    }
    assert forall|k: int, e: u64|
        0 <= k < s.len() && #[trigger] m1[s[k].node].spec_contained().contains(e) implies boxes(m0, m1).contains(e)
            || s[k].pending@.contains(e) || fin.contains_key(e) || (k + 1 < s.len() && s[k + 1].node == e) by {
        if k == s.len() - 2 {
            assert(stack_nodes(full)[k] == u);
            assert(active.contains(u));
            assert(m.contains_key(u));
            assert(m1[u] == m[u]);
            assert(m[full[k].node].spec_contained().contains(e));
            if e != child && full[k].pending@.contains(e) {
                let q = choose|q: int| 0 <= q < top_old.pending@.len() && #[trigger] top_old.pending@[q] == e;
                assert(q < top_old.pending@.len() - 1);
                assert(top.pending@[q] == e);
            }
        } else if k < s.len() - 2 {
            assert(s[k] == full[k]);
            assert(s[k + 1].node == full[k + 1].node);
            assert(stack_nodes(full)[k] == full[k].node);
            assert(active.contains(full[k].node));
            assert(full[k].node != child);
            assert(m1[full[k].node] == m[full[k].node]);
            assert(m[full[k].node].spec_contained().contains(e));
        }
    }
    assert forall|k: int| 0 < k < s.len() implies contains_edge(m0, s[k - 1].node, #[trigger] s[k].node) by {
        if k == s.len() - 1 {
            assert(s[k - 1].node == u);
        } else {
            assert(s[k].node == full[k].node);
            assert(s[k - 1].node == full[k - 1].node);
        }
    }
    assert forall|v: u64| #[trigger] fin.contains_key(v) <==> (visited1.contains(v) && !active1.contains(v)) by {
        if v == child {
            assert(!fin.contains_key(child));
        }
    }
}

/// When every type of `m0` is finished, the walk has broken every cycle.
proof fn lemma_break_done<F: Fn(&u64) -> u64>(
    f: F,
    m0: Map<u64, Type>,
    m: Map<u64, Type>,
    visited: Set<u64>,
    fin: Map<u64, nat>,
    counter: nat,
)
    requires
        break_walk_inv(f, m0, m, visited, Set::empty(), Seq::empty(), fin, counter),
        forall|u: u64| #[trigger] m0.contains_key(u) ==> visited.contains(u),
    ensures
        cycles_broken(f, m0, m),
{
    assert forall|u: u64| #[trigger] m0.contains_key(u) implies rewired(m0, m, u) by {
        assert(visited.contains(u));
    }
    let rank = Map::new(|x: u64| m.dom().contains(x), |x: u64| if fin.contains_key(x) { (fin[x] + 1) as nat } else { 0nat });
    assert forall|a: u64, b: u64| #[trigger] contains_edge(m, a, b) implies rank.contains_key(a) && rank.contains_key(b)
        && rank[b] < rank[a] by {
        if boxes(m0, m).contains(a) {
            assert(m[a] is Box);
            assert(m[a].spec_contained() =~= Seq::<u64>::empty());
        } else {
            assert(m0.contains_key(a));
            assert(visited.contains(a));
            assert(fin.contains_key(a));
            assert(m[a].spec_contained().contains(b));
            if !boxes(m0, m).contains(b) {
                assert(fin.contains_key(b));
                assert(visited.contains(b));
            }
        }
    }
    assert(contains_ranked(m, rank));
    assert forall|a: u64, b: u64| m.contains_key(a) && (#[trigger] m[a].spec_children()).contains(b) implies #[trigger] m.contains_key(b) by {
        if boxes(m0, m).contains(a) {
            assert(m[a].spec_children() =~= seq![m[a]->Box_0]);
            assert(b == m[a]->Box_0);
        } else {
            assert(m0.contains_key(a));
            assert(rewired(m0, m, a));
            if m0[a].holds_inline() {
                assert(m[a].spec_children() == m[a].spec_contained());
                let i = choose|i: int| 0 <= i < m[a].spec_contained().len() && #[trigger] m[a].spec_contained()[i] == b;
                if m[a].spec_contained()[i] == m0[a].spec_contained()[i] {
                    assert(m0[a].spec_children().contains(b));
                }
            } else {
                assert(m0[a].spec_children().contains(b));
            }
        }
    }
}

/// Break containment cycles so that no type is infinitely sized.
///
/// Walks the containment graph (the children that contribute to a type's
/// size) depth first from every type, in ID order. A child that closes a
/// cycle is replaced by a fresh `Type::Box` around it, whose ID
/// `make_box_id` gives; the remaining children are descended into.
///
/// `make_box_id` must give a fresh ID, the same one each time for the
/// same child and different ones for different children; it is called
/// only for types on a containment cycle.
pub fn break_cycles<F: Fn(&u64) -> u64>(types: &mut BTreeMap<u64, Type>, make_box_id: F)
    requires
        closed(old(types)@),
        box_ids_fresh(make_box_id, old(types)@),
        box_ids_callable(make_box_id, old(types)@),
    ensures
        cycles_broken(make_box_id, old(types)@, final(types)@),
{
    proof {
        lemma_u64_key_order();
    }
    let ghost m0 = types@;
    let keys = sorted_keys(types);
    let mut visited: BTreeSet<u64> = BTreeSet::new();
    let mut active: BTreeSet<u64> = BTreeSet::new();
    let ghost mut fin: Map<u64, nat> = Map::empty();
    let ghost mut counter: nat = 0;
    let mut i: usize = 0;
    proof {
        vstd::std_specs::btree::axiom_btree_map_view_finite_dom(*types);
        assert(stack_nodes(Seq::<Frame>::empty()).to_set() =~= Set::<u64>::empty());
        assert(visited@.len() == 0);
        assert(boxes(m0, types@) =~= Set::<u64>::empty());
    }
    while i < keys.len()
        invariant
            m0.dom().finite(),
            closed(m0),
            box_ids_fresh(make_box_id, m0),
            box_ids_callable(make_box_id, m0),
            visited@.finite(),
            visited@.len() <= m0.dom().len(),
            i <= keys@.len(),
            forall|k: u64| #[trigger] keys@.contains(k) <==> m0.contains_key(k),
            break_walk_inv(make_box_id, m0, types@, visited@, active@, Seq::empty(), fin, counter),
            forall|j: int| 0 <= j < i ==> #[trigger] visited@.contains(keys@[j]),
        decreases keys@.len() - i,
    {
        let root = keys[i];
        proof {
            assert(keys@.contains(root));
        }
        if !visited.contains(&root) {
            proof {
                vstd::set_lib::lemma_len_subset(visited@.insert(root), m0.dom());
                assert(types@[root] == m0[root]);
                assert forall|c: u64| active@.insert(root).contains(c) && #[trigger] contains_edge(m0, root, c) implies on_contains_cycle(m0, c) by {
                    assert(stack_nodes(Seq::<Frame>::empty()).to_set() =~= Set::<u64>::empty());
                    assert(c == root);
                    let p = seq![root, root];
                    assert(contains_path(m0, p) && p.len() >= 2 && p[0] == c && p.last() == c);
                }
            }
            let ghost visited0 = visited@;
            let ghost m_before = types@;
            visited.insert(root);
            active.insert(root);
            let list = snip_cycles(types, root, &active, &make_box_id, Ghost(m0));
            let mut stack: Vec<Frame> = Vec::new();
            stack.push(Frame { node: root, pending: list });
            proof {
                assert(stack_nodes(stack@) =~= seq![root]);
                assert(active@ =~= stack_nodes(stack@).to_set());
                assert(boxes(m0, m_before).subset_of(boxes(m0, types@)));
                assert forall|x: u64| #[trigger] visited@.contains(x) implies m0.contains_key(x) && rewired(m0, types@, x) by {
                    if x != root {
                        assert(visited0.contains(x));
                        assert(fin.contains_key(x));
                        assert(rewired(m0, m_before, x));
                        assert(types@[x] == m_before[x]);
                        assert forall|i: int| 0 <= i < m0[x].spec_contained().len() implies #[trigger] types@[x].spec_contained()[i]
                            == m0[x].spec_contained()[i] || (boxes(m0, types@).contains(types@[x].spec_contained()[i]) && types@[types@[x].spec_contained()[i]]
                            == Type::Box(m0[x].spec_contained()[i])) by {
                            if types@[x].spec_contained()[i] != m0[x].spec_contained()[i] {
                                assert(boxes(m0, m_before).contains(m_before[x].spec_contained()[i]));
                            }
                        }
                    }
                }
                assert forall|x: u64| m0.contains_key(x) && !visited@.contains(x) implies #[trigger] types@[x] == m0[x] by {
                    assert(m_before[x] == m0[x]);
                }
                assert forall|a: u64, e: u64|
                    fin.contains_key(a) && #[trigger] types@[a].spec_contained().contains(e) implies boxes(m0, types@).contains(e) || (
                    fin.contains_key(e) && fin[e] < fin[a]) by {
                    assert(a != root);
                    assert(types@[a] == m_before[a]);
                }
                assert forall|k: int, e: u64|
                    0 <= k < stack@.len() && #[trigger] stack@[k].pending@.contains(e) implies contains_edge(m0, stack@[k].node, e)
                        && m0.contains_key(e) && !stack_nodes(stack@).take(k + 1).contains(e) by {
                    assert(stack_nodes(stack@).take(k + 1) =~= seq![root]);
                    assert(m0[root].spec_contained().contains(e));
                    assert(m0[root].spec_children().contains(e));
                }
                assert forall|v: u64| #[trigger] fin.contains_key(v) <==> (visited@.contains(v) && !active@.contains(v)) by {
                    if v == root {
                        assert(!fin.contains_key(root));
                    }
                }
                assert(break_walk_inv(make_box_id, m0, types@, visited@, active@, stack@, fin, counter));
            }
            while stack.len() > 0
                invariant
                    m0.dom().finite(),
                    closed(m0),
                    box_ids_fresh(make_box_id, m0),
                    box_ids_callable(make_box_id, m0),
                    visited@.finite(),
                    visited@.len() <= m0.dom().len(),
                    break_walk_inv(make_box_id, m0, types@, visited@, active@, stack@, fin, counter),
                    visited@.contains(root),
                    i < keys@.len(),
                    forall|j: int| 0 <= j < i ==> #[trigger] visited@.contains(keys@[j]),
                decreases m0.dom().len() - visited@.len(), pending_total(stack@), stack@.len(),
            {
                let ghost full = stack@;
                let mut top = stack.pop().unwrap();
                let ghost top_old = top;
                proof {
                    assert(full.drop_last() == stack@);
                    assert(full.last() == top_old);
                    lemma_pending_total_pop(full);
                }
                let u = top.node;
                match top.pending.pop() {
                    None => {
                        active.remove(&u);
                        proof {
                            lemma_break_finish(make_box_id, m0, types@, visited@, full, fin, counter);
                            fin = fin.insert(u, counter);
                            counter = counter + 1;
                        }
                    },
                    Some(child) => {
                        proof {
                            lemma_break_child(make_box_id, m0, types@, visited@, active@, full, fin, counter);
                        }
                        if visited.contains(&child) {
                            stack.push(top);
                            proof {
                                lemma_break_skip(make_box_id, m0, types@, visited@, active@, full, fin, counter, top);
                                lemma_pending_total_push(full.drop_last(), top);
                            }
                        } else {
                            stack.push(top);
                            proof {
                                vstd::set_lib::lemma_len_subset(visited@.insert(child), m0.dom());
                                lemma_pending_total_push(full.drop_last(), top);
                                lemma_break_before_snip(make_box_id, m0, types@, visited@, active@, full, fin, counter, top);
                            }
                            let ghost visited0 = visited@;
                            let ghost active0 = active@;
                            let ghost m_before = types@;
                            visited.insert(child);
                            active.insert(child);
                            let ghost s1 = stack@;
                            let list = snip_cycles(types, child, &active, &make_box_id, Ghost(m0));
                            proof {
                                lemma_break_descend(make_box_id, m0, m_before, types@, visited0, active0, full, fin, counter, top, list);
                                lemma_pending_total_push(s1, Frame { node: child, pending: list });
                            }
                            stack.push(Frame { node: child, pending: list });
                        }
                    },
                }
            }
            proof {
                assert(stack@.len() == 0);
                assert(active@ =~= Set::<u64>::empty());
            }
        }
        proof {
            assert forall|j: int| 0 <= j < i + 1 implies #[trigger] visited@.contains(keys@[j]) by {
                if j == i {
                    assert(keys@[j] == root);
                }
            }
        }
        i = i + 1;
    }
    proof {
        assert forall|u: u64| #[trigger] m0.contains_key(u) implies visited@.contains(u) by {
            assert(keys@.contains(u));
            let j = choose|j: int| 0 <= j < keys@.len() && #[trigger] keys@[j] == u;
        }
        lemma_break_done(make_box_id, m0, types@, visited@, fin, counter);
    }
}

} // verus!
