//! Laws of the tree traversals, stated over their specifications.
use vstd::prelude::*;

use crate::treenode::{
    down_up_spec, map_children_spec, map_prefix_spec, mk_transformed, spec_no, visit_children_spec, visit_spec,
    RewriteFn, Transformed, TreeNode, TreeNodeRecursion, TreeNodeVisitor,
};

verus! {

/// A rewrite that never changes a node leaves the whole tree unchanged, in
/// a top-down, a bottom-up and a combined walk alike.
pub proof fn law_identity_rewrite<N: TreeNode>(fd: RewriteFn<N>, fu: RewriteFn<N>, n: N, depth: nat)
    requires
        forall|x: N| #[trigger] fd(x) == Ok::<Transformed<N>, crate::error::DaftError>(spec_no(x)),
        forall|x: N| #[trigger] fu(x) == Ok::<Transformed<N>, crate::error::DaftError>(spec_no(x)),
    ensures
        down_up_spec(fd, fu, n, depth) == Ok::<Transformed<N>, crate::error::DaftError>(spec_no(n)),
    decreases depth, 0nat, 0nat,
{
    if depth > 0 {
        law_identity_children(fd, fu, n, (depth - 1) as nat);
    }
}

proof fn law_identity_children<N: TreeNode>(fd: RewriteFn<N>, fu: RewriteFn<N>, n: N, depth: nat)
    requires
        forall|x: N| #[trigger] fd(x) == Ok::<Transformed<N>, crate::error::DaftError>(spec_no(x)),
        forall|x: N| #[trigger] fu(x) == Ok::<Transformed<N>, crate::error::DaftError>(spec_no(x)),
    ensures
        map_children_spec(fd, fu, n, depth) == Ok::<Transformed<N>, crate::error::DaftError>(spec_no(n)),
    decreases depth, 2nat, 0nat,
{
    let cs = n.spec_children();
    if cs.len() > 0 {
        law_identity_prefix(fd, fu, cs, cs.len() as int, depth);
    }
}

proof fn law_identity_prefix<N: TreeNode>(fd: RewriteFn<N>, fu: RewriteFn<N>, cs: Seq<N>, k: int, depth: nat)
    requires
        forall|x: N| #[trigger] fd(x) == Ok::<Transformed<N>, crate::error::DaftError>(spec_no(x)),
        forall|x: N| #[trigger] fu(x) == Ok::<Transformed<N>, crate::error::DaftError>(spec_no(x)),
        0 <= k <= cs.len(),
    ensures
        map_prefix_spec(fd, fu, cs, k, depth) == Ok::<Transformed<Seq<N>>, crate::error::DaftError>(
            mk_transformed(cs.subrange(0, k), false, TreeNodeRecursion::Continue),
        ),
    decreases depth, 1nat, k,
{
    if k > 0 {
        law_identity_prefix(fd, fu, cs, k - 1, depth);
        law_identity_rewrite(fd, fu, cs[k - 1], depth);
        assert(cs.subrange(0, k - 1).push(cs[k - 1]) =~= cs.subrange(0, k));
    } else {
        assert(cs.subrange(0, 0) =~= Seq::<N>::empty());
    }
}

/// When the top-down rewrite changes the root, the whole walk reports a change.
pub proof fn law_changed_by_root<N: TreeNode>(fd: RewriteFn<N>, fu: RewriteFn<N>, n: N, depth: nat)
    requires
        depth > 0,
        fd(n) matches Ok(t) && t.transformed,
    ensures
        down_up_spec(fd, fu, n, depth) matches Ok(r) ==> r.transformed,
{
}

/// When the bottom-up rewrite changes the root, the whole walk reports a change.
pub proof fn law_changed_by_root_up<N: TreeNode>(fd: RewriteFn<N>, fu: RewriteFn<N>, n: N, depth: nat)
    requires
        depth > 0,
        fd(n) == Ok::<Transformed<N>, crate::error::DaftError>(spec_no(n)),
        map_children_spec(fd, fu, n, (depth - 1) as nat) matches Ok(m) && (m.tnr == TreeNodeRecursion::Continue
            && (fu(m.data) matches Ok(u) && u.transformed)),
    ensures
        down_up_spec(fd, fu, n, depth) matches Ok(r) && r.transformed,
{
}

/// When a child's rewrite reports a change, the rewrite of its parent's
/// children does too (or fails).
pub proof fn law_changed_by_child<N: TreeNode>(fd: RewriteFn<N>, fu: RewriteFn<N>, cs: Seq<N>, i: int, k: int, depth: nat)
    requires
        0 <= i < k <= cs.len(),
        map_prefix_spec(fd, fu, cs, i + 1, depth) matches Ok(p) && p.transformed,
    ensures
        map_prefix_spec(fd, fu, cs, k, depth) matches Ok(q) ==> q.transformed,
    decreases k - i,
{
    if k > i + 1 {
        law_changed_by_child(fd, fu, cs, i, k - 1, depth);
    }
}

/// When no rewrite ever reports a change, neither does the walk.
pub proof fn law_unchanged_without_yes<N: TreeNode>(fd: RewriteFn<N>, fu: RewriteFn<N>, n: N, depth: nat)
    requires
        forall|x: N| #[trigger] fd(x) matches Ok(t) ==> !t.transformed,
        forall|x: N| #[trigger] fu(x) matches Ok(t) ==> !t.transformed,
    ensures
        down_up_spec(fd, fu, n, depth) matches Ok(r) ==> !r.transformed,
    decreases depth, 0nat, 0nat,
{
    if depth > 0 {
        if let Ok(t) = fd(n) {
            law_unchanged_without_yes_children(fd, fu, t.data, (depth - 1) as nat);
        }
    }
}

proof fn law_unchanged_without_yes_children<N: TreeNode>(fd: RewriteFn<N>, fu: RewriteFn<N>, n: N, depth: nat)
    requires
        forall|x: N| #[trigger] fd(x) matches Ok(t) ==> !t.transformed,
        forall|x: N| #[trigger] fu(x) matches Ok(t) ==> !t.transformed,
    ensures
        map_children_spec(fd, fu, n, depth) matches Ok(r) ==> !r.transformed,
    decreases depth, 2nat, 0nat,
{
    let cs = n.spec_children();
    if cs.len() > 0 {
        law_unchanged_without_yes_prefix(fd, fu, cs, cs.len() as int, depth);
    }
}

proof fn law_unchanged_without_yes_prefix<N: TreeNode>(fd: RewriteFn<N>, fu: RewriteFn<N>, cs: Seq<N>, k: int, depth: nat)
    requires
        forall|x: N| #[trigger] fd(x) matches Ok(t) ==> !t.transformed,
        forall|x: N| #[trigger] fu(x) matches Ok(t) ==> !t.transformed,
    ensures
        map_prefix_spec(fd, fu, cs, k, depth) matches Ok(r) ==> !r.transformed,
    decreases depth, 1nat, k,
{
    if k > 0 && k <= cs.len() {
        law_unchanged_without_yes_prefix(fd, fu, cs, k - 1, depth);
        law_unchanged_without_yes(fd, fu, cs[k - 1], depth);
    }
}

/// A visit calls `f_down` on a node before anything else in its subtree,
/// visits the children from the state it left, and calls `f_up` on the node
/// last, from the state the children left.
pub proof fn law_visit_order<N: TreeNode, V: TreeNodeVisitor<Node = N>>(v: V, n: N)
    requires
        V::spec_f_down(v, n).1 == Ok::<TreeNodeRecursion, crate::error::DaftError>(TreeNodeRecursion::Continue),
        visit_children_spec(V::spec_f_down(v, n).0, n, n.spec_children().len() as int).1 == Ok::<
            TreeNodeRecursion,
            crate::error::DaftError,
        >(TreeNodeRecursion::Continue),
    ensures
        visit_spec(v, n) == V::spec_f_up(visit_children_spec(V::spec_f_down(v, n).0, n, n.spec_children().len() as int).0, n),
{
}

/// `Stop` from `f_down` ends the visit right there.
pub proof fn law_visit_stop_in_down<N: TreeNode, V: TreeNodeVisitor<Node = N>>(v: V, n: N)
    requires
        V::spec_f_down(v, n).1 == Ok::<TreeNodeRecursion, crate::error::DaftError>(TreeNodeRecursion::Stop),
    ensures
        visit_spec(v, n) == (V::spec_f_down(v, n).0, Ok::<TreeNodeRecursion, crate::error::DaftError>(TreeNodeRecursion::Stop)),
{
}

/// `Stop` or an error from the visit of a child ends the visit of its parent
/// with that child's state and result: no later sibling is visited and no
/// `f_up` of an ancestor runs.
pub proof fn law_visit_stop_in_child<N: TreeNode, V: TreeNodeVisitor<Node = N>>(v: V, n: N, i: int)
    requires
        0 < i <= n.spec_children().len(),
        V::spec_f_down(v, n).1 == Ok::<TreeNodeRecursion, crate::error::DaftError>(TreeNodeRecursion::Continue),
        match visit_children_spec(V::spec_f_down(v, n).0, n, i).1 {
            Ok(TreeNodeRecursion::Stop) | Err(_) => true,
            _ => false,
        },
    ensures
        visit_spec(v, n) == visit_children_spec(V::spec_f_down(v, n).0, n, i),
{
    law_visit_siblings_settled(V::spec_f_down(v, n).0, n, i, n.spec_children().len() as int);
}

/// Once the walk over the children errs or stops, later children are not visited.
pub proof fn law_visit_siblings_settled<N: TreeNode, V: TreeNodeVisitor<Node = N>>(v: V, n: N, i: int, k: int)
    requires
        0 < i <= k <= n.spec_children().len(),
        match visit_children_spec(v, n, i).1 {
            Ok(TreeNodeRecursion::Stop) | Err(_) => true,
            _ => false,
        },
    ensures
        visit_children_spec(v, n, k) == visit_children_spec(v, n, i),
    decreases k - i,
{
    if k > i {
        law_visit_siblings_settled(v, n, i, k - 1);
    }
}

/// `Jump` from `f_down` skips the whole subtree below the node, and `f_up`
/// on the node itself still runs.
pub proof fn law_visit_jump_in_down<N: TreeNode, V: TreeNodeVisitor<Node = N>>(v: V, n: N)
    requires
        V::spec_f_down(v, n).1 == Ok::<TreeNodeRecursion, crate::error::DaftError>(TreeNodeRecursion::Jump),
    ensures
        visit_spec(v, n) == V::spec_f_up(V::spec_f_down(v, n).0, n),
{
}

/// `Jump` coming up from the last child skips `f_up` on the parent; the
/// parent's visit passes the `Jump` on.
pub proof fn law_visit_jump_skips_parent<N: TreeNode, V: TreeNodeVisitor<Node = N>>(v: V, n: N)
    requires
        V::spec_f_down(v, n).1 == Ok::<TreeNodeRecursion, crate::error::DaftError>(TreeNodeRecursion::Continue),
        visit_children_spec(V::spec_f_down(v, n).0, n, n.spec_children().len() as int).1 == Ok::<
            TreeNodeRecursion,
            crate::error::DaftError,
        >(TreeNodeRecursion::Jump),
    ensures
        visit_spec(v, n) == visit_children_spec(V::spec_f_down(v, n).0, n, n.spec_children().len() as int),
{
}

/// `Jump` coming up from a child ends at the next sibling, which is visited.
pub proof fn law_visit_jump_resumes_at_sibling<N: TreeNode, V: TreeNodeVisitor<Node = N>>(v: V, n: N, k: int)
    requires
        0 < k < n.spec_children().len(),
        visit_children_spec(v, n, k).1 == Ok::<TreeNodeRecursion, crate::error::DaftError>(TreeNodeRecursion::Jump),
    ensures
        visit_children_spec(v, n, k + 1) == visit_spec(visit_children_spec(v, n, k).0, n.spec_children()[k]),
{
    n.lemma_children_smaller();
}

/// An error from the rewrite of a sibling ends the rewrite of the sequence:
/// no later sibling is rewritten.
pub proof fn law_rewrite_error_ends_siblings<N: TreeNode>(fd: RewriteFn<N>, fu: RewriteFn<N>, cs: Seq<N>, i: int, k: int, depth: nat)
    requires
        0 < i <= k <= cs.len(),
        map_prefix_spec(fd, fu, cs, i, depth) is Err,
    ensures
        map_prefix_spec(fd, fu, cs, k, depth) == map_prefix_spec(fd, fu, cs, i, depth),
    decreases k - i,
{
    if k > i {
        law_rewrite_error_ends_siblings(fd, fu, cs, i, k - 1, depth);
    }
}

} // verus!
