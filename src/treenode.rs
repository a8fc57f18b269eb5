//! Generic traversal and rewriting of trees whose nodes own children of
//! their own type.
use std::sync::Arc;
use vstd::prelude::*;

use crate::error::DaftResult;

verus! {

/// Controls how a traversal proceeds after a callback has seen a node.
#[derive(Debug, PartialEq, Eq, Structural, Clone, Copy)]
pub enum TreeNodeRecursion {
    /// Go on with the next node.
    Continue,
    /// Top-down: skip the children of this node. Bottom-up: skip the
    /// remaining bottom-up callbacks until the next unvisited subtree.
    Jump,
    /// End the traversal.
    Stop,
}

impl TreeNodeRecursion {
    /// Runs `f` on the children of the current node if the signal allows it.
    pub fn visit_children<F: FnOnce() -> DaftResult<TreeNodeRecursion>>(self, f: F) -> (r:
        DaftResult<TreeNodeRecursion>)
        requires
            self == TreeNodeRecursion::Continue ==> f.requires(()),
        ensures
            match self {
                TreeNodeRecursion::Continue => f.ensures((), r),
                TreeNodeRecursion::Jump => r == Ok::<TreeNodeRecursion, crate::error::DaftError>(
                    TreeNodeRecursion::Continue,
                ),
                TreeNodeRecursion::Stop => r == Ok::<TreeNodeRecursion, crate::error::DaftError>(
                    TreeNodeRecursion::Stop,
                ),
            },
    {
        match self {
            TreeNodeRecursion::Continue => f(),
            TreeNodeRecursion::Jump => Ok(TreeNodeRecursion::Continue),
            TreeNodeRecursion::Stop => Ok(self),
        }
    }

    /// Runs `f` on the next sibling unless the traversal was stopped.
    pub fn visit_sibling<F: FnOnce() -> DaftResult<TreeNodeRecursion>>(self, f: F) -> (r:
        DaftResult<TreeNodeRecursion>)
        requires
            self != TreeNodeRecursion::Stop ==> f.requires(()),
        ensures
            self != TreeNodeRecursion::Stop ==> f.ensures((), r),
            self == TreeNodeRecursion::Stop ==> r == Ok::<
                TreeNodeRecursion,
                crate::error::DaftError,
            >(TreeNodeRecursion::Stop),
    {
        match self {
            TreeNodeRecursion::Continue | TreeNodeRecursion::Jump => f(),
            TreeNodeRecursion::Stop => Ok(self),
        }
    }

    /// Runs `f` on the parent only after a plain continuation.
    pub fn visit_parent<F: FnOnce() -> DaftResult<TreeNodeRecursion>>(self, f: F) -> (r:
        DaftResult<TreeNodeRecursion>)
        requires
            self == TreeNodeRecursion::Continue ==> f.requires(()),
        ensures
            self == TreeNodeRecursion::Continue ==> f.ensures((), r),
            self != TreeNodeRecursion::Continue ==> r == Ok::<
                TreeNodeRecursion,
                crate::error::DaftError,
            >(self),
    {
        match self {
            TreeNodeRecursion::Continue => f(),
            TreeNodeRecursion::Jump | TreeNodeRecursion::Stop => Ok(self),
        }
    }
}

/// A value together with whether it was changed and how the traversal goes on.
#[derive(Debug, PartialEq, Eq)]
pub struct Transformed<T> {
    pub data: T,
    pub transformed: bool,
    pub tnr: TreeNodeRecursion,
}

/// The envelope `(data, transformed, tnr)` as a value.
pub open spec fn mk_transformed<T>(data: T, transformed: bool, tnr: TreeNodeRecursion) -> Transformed<T> {
    Transformed { data, transformed, tnr }
}

/// `Transformed::no(data)` as a value.
pub open spec fn spec_no<T>(data: T) -> Transformed<T> {
    mk_transformed(data, false, TreeNodeRecursion::Continue)
}

/// `Transformed::yes(data)` as a value.
pub open spec fn spec_yes<T>(data: T) -> Transformed<T> {
    mk_transformed(data, true, TreeNodeRecursion::Continue)
}

/// `t` with `changed` or-ed into its flag.
pub open spec fn or_flag<T>(t: Transformed<T>, changed: bool) -> Transformed<T> {
    mk_transformed(t.data, t.transformed || changed, t.tnr)
}

impl<T> Transformed<T> {
    /// Builds an envelope from its three parts.
    pub fn new(data: T, transformed: bool, tnr: TreeNodeRecursion) -> (r: Self)
        ensures
            r == mk_transformed(data, transformed, tnr),
    {
        Transformed { data, transformed, tnr }
    }

    /// Changed data; the traversal continues.
    pub fn yes(data: T) -> (r: Self)
        ensures
            r == spec_yes(data),
    {
        Self::new(data, true, TreeNodeRecursion::Continue)
    }

    /// Unchanged data; the traversal continues.
    pub fn no(data: T) -> (r: Self)
        ensures
            r == spec_no(data),
    {
        Self::new(data, false, TreeNodeRecursion::Continue)
    }

    /// Applies `f` to the data and keeps the flag and the signal.
    pub fn update_data<U, F: FnOnce(T) -> U>(self, f: F) -> (r: Transformed<U>)
        requires
            f.requires((self.data,)),
        ensures
            f.ensures((self.data,), r.data),
            r.transformed == self.transformed,
            r.tnr == self.tnr,
    {
        Transformed::new(f(self.data), self.transformed, self.tnr)
    }

    /// Applies a fallible `f` to the data and keeps the flag and the signal.
    pub fn map_data<U, F: FnOnce(T) -> DaftResult<U>>(self, f: F) -> (r: DaftResult<Transformed<U>>)
        requires
            f.requires((self.data,)),
        ensures
            match r {
                Ok(t) => f.ensures((self.data,), Ok(t.data)) && t.transformed == self.transformed
                    && t.tnr == self.tnr,
                Err(e) => f.ensures((self.data,), Err(e)),
            },
    {
        match f(self.data) {
            Ok(data) => Ok(Transformed::new(data, self.transformed, self.tnr)),
            Err(e) => Err(e),
        }
    }

    /// `self` if it was changed, otherwise `other`.
    pub fn or(self, other: Self) -> (r: Self)
        ensures
            r == (if self.transformed {
                self
            } else {
                other
            }),
    {
        if self.transformed {
            self
        } else {
            other
        }
    }

    /// Maps changed data with `yes_op` and unchanged data with `no_op`.
    pub fn map_yes_no<U, Y: FnOnce(T) -> U, N: FnOnce(T) -> U>(self, yes_op: Y, no_op: N) -> (r:
        Transformed<U>)
        requires
            self.transformed ==> yes_op.requires((self.data,)),
            !self.transformed ==> no_op.requires((self.data,)),
        ensures
            r.transformed == self.transformed,
            r.tnr == TreeNodeRecursion::Continue,
            self.transformed ==> yes_op.ensures((self.data,), r.data),
            !self.transformed ==> no_op.ensures((self.data,), r.data),
    {
        if self.transformed {
            Transformed::yes(yes_op(self.data))
        } else {
            Transformed::no(no_op(self.data))
        }
    }

    /// Replaces the envelope by `f(data)`, or-ing in the current flag.
    pub fn transform_data<U, F: FnOnce(T) -> DaftResult<Transformed<U>>>(self, f: F) -> (r:
        DaftResult<Transformed<U>>)
        requires
            f.requires((self.data,)),
        ensures
            match r {
                Ok(t) => exists|t0: Transformed<U>|
                    f.ensures((self.data,), Ok(t0)) && t == or_flag(t0, self.transformed),
                Err(e) => f.ensures((self.data,), Err(e)),
            },
    {
        match f(self.data) {
            Ok(t) => {
                let ghost t0 = t;
                let r = Transformed::new(t.data, t.transformed || self.transformed, t.tnr);
                assert(r == or_flag(t0, self.transformed));
                Ok(r)
            },
            Err(e) => Err(e),
        }
    }

    /// Applies `f` (a rewrite of the children) as the signal allows: on
    /// `Continue` it runs, on `Jump` the children are skipped and the walk
    /// continues, on `Stop` nothing happens.
    pub fn transform_children<F: FnOnce(T) -> DaftResult<Transformed<T>>>(self, f: F) -> (r:
        DaftResult<Transformed<T>>)
        requires
            self.tnr == TreeNodeRecursion::Continue ==> f.requires((self.data,)),
        ensures
            match self.tnr {
                TreeNodeRecursion::Continue => match r {
                    Ok(t) => exists|t0: Transformed<T>|
                        f.ensures((self.data,), Ok(t0)) && t == or_flag(t0, self.transformed),
                    Err(e) => f.ensures((self.data,), Err(e)),
                },
                TreeNodeRecursion::Jump => r == Ok::<Transformed<T>, crate::error::DaftError>(
                    mk_transformed(self.data, self.transformed, TreeNodeRecursion::Continue),
                ),
                TreeNodeRecursion::Stop => r == Ok::<Transformed<T>, crate::error::DaftError>(self),
            },
    {
        match self.tnr {
            TreeNodeRecursion::Continue => self.transform_data(f),
            TreeNodeRecursion::Jump => Ok(Transformed::new(self.data, self.transformed, TreeNodeRecursion::Continue)),
            TreeNodeRecursion::Stop => Ok(self),
        }
    }

    /// Applies `f` (a rewrite of the next sibling) unless the walk stopped.
    pub fn transform_sibling<F: FnOnce(T) -> DaftResult<Transformed<T>>>(self, f: F) -> (r:
        DaftResult<Transformed<T>>)
        requires
            self.tnr != TreeNodeRecursion::Stop ==> f.requires((self.data,)),
        ensures
            self.tnr != TreeNodeRecursion::Stop ==> match r {
                Ok(t) => exists|t0: Transformed<T>|
                    f.ensures((self.data,), Ok(t0)) && t == or_flag(t0, self.transformed),
                Err(e) => f.ensures((self.data,), Err(e)),
            },
            self.tnr == TreeNodeRecursion::Stop ==> r == Ok::<
                Transformed<T>,
                crate::error::DaftError,
            >(self),
    {
        match self.tnr {
            TreeNodeRecursion::Continue | TreeNodeRecursion::Jump => self.transform_data(f),
            TreeNodeRecursion::Stop => Ok(self),
        }
    }

    /// Applies `f` (a rewrite of the parent) only after a plain continuation.
    pub fn transform_parent<F: FnOnce(T) -> DaftResult<Transformed<T>>>(self, f: F) -> (r:
        DaftResult<Transformed<T>>)
        requires
            self.tnr == TreeNodeRecursion::Continue ==> f.requires((self.data,)),
        ensures
            self.tnr == TreeNodeRecursion::Continue ==> match r {
                Ok(t) => exists|t0: Transformed<T>|
                    f.ensures((self.data,), Ok(t0)) && t == or_flag(t0, self.transformed),
                Err(e) => f.ensures((self.data,), Err(e)),
            },
            self.tnr != TreeNodeRecursion::Continue ==> r == Ok::<
                Transformed<T>,
                crate::error::DaftError,
            >(self),
    {
        match self.tnr {
            TreeNodeRecursion::Continue => self.transform_data(f),
            TreeNodeRecursion::Jump | TreeNodeRecursion::Stop => Ok(self),
        }
    }
}


/// The result that a deterministic function `f` gives on `a`.
pub open spec fn call_result<A, R, F: FnOnce(A) -> R>(f: F, a: A) -> R {
    choose|r: R| call_ensures(f, (a,), r)
}

/// `f` may be called on every argument.
pub open spec fn callable_everywhere<A, R, F: FnOnce(A) -> R>(f: F) -> bool {
    forall|a: A| call_requires(f, (a,))
}

/// `f` gives at most one result on each argument.
pub open spec fn deterministic<A, R, F: FnOnce(A) -> R>(f: F) -> bool {
    forall|a: A, r1: R, r2: R| call_ensures(f, (a,), r1) && call_ensures(f, (a,), r2) ==> r1 == r2
}

/// A function fit for a traversal: callable everywhere, with one result each time.
pub open spec fn well_behaved<A, R, F: FnOnce(A) -> R>(f: F) -> bool {
    callable_everywhere(f) && deterministic(f)
}

proof fn lemma_call_result<A, R, F: FnOnce(A) -> R>(f: F, a: A, r: R)
    requires
        deterministic(f),
        call_ensures(f, (a,), r),
    ensures
        call_result(f, a) == r,
{
}

/// A tree node: a value with an ordered list of children of its own type,
/// which can be read and replaced.
pub trait TreeNode: Sized {
    /// The children, in order.
    spec fn spec_children(&self) -> Seq<Self>;

    /// A measure that each child has below its parent.
    spec fn spec_size(&self) -> nat;

    /// What replacing the children by `children` yields.
    spec fn spec_with_new_children(self, children: Seq<Self>) -> DaftResult<Self>;

    proof fn lemma_children_smaller(&self)
        ensures
            forall|i: int|
                0 <= i < self.spec_children().len() ==> #[trigger] self.spec_children()[i].spec_size()
                    < self.spec_size(),
    ;

    /// The children, in order.
    fn children(&self) -> (r: Vec<Self>)
        ensures
            r@ == self.spec_children(),
    ;

    /// Replaces the children by `children`, in order.
    fn with_new_children(self, children: Vec<Self>) -> (r: DaftResult<Self>)
        ensures
            r == self.spec_with_new_children(children@),
    ;

}

/// The traversals that every [`TreeNode`] has.
pub trait TreeNodeTraversal: TreeNode {
    /// Visits the tree depth first with `visitor`: `f_down` before the
    /// children, `f_up` after them.
    fn visit<V: TreeNodeVisitor<Node = Self>>(&self, visitor: &mut V) -> (r: DaftResult<
        TreeNodeRecursion,
    >)
        ensures
            (*final(visitor), r) == visit_spec(*old(visitor), *self),
    ;

    /// Rewrites the tree with `rewriter`: `f_down` before the children,
    /// `f_up` after them.
    fn rewrite<R: TreeNodeRewriter<Node = Self>>(self, rewriter: &mut R) -> (r: DaftResult<Transformed<Self>>)
        ensures
            (*final(rewriter), r) == rewrite_spec(*old(rewriter), self, DEPTH_LIMIT as nat),
    ;

    /// Maps each child once with `f`, in order, until one returns `Stop`;
    /// the node is rebuilt only when a child changed.
    fn map_children<F: Fn(Self) -> DaftResult<Transformed<Self>>>(self, f: F) -> (r: DaftResult<Transformed<Self>>)
        requires
            well_behaved(f),
        ensures
            r == map_children_once_spec(rewrite_of(f), self),
    ;

    /// Inspects each child once with `f`, in order, until one returns `Stop`.
    fn apply_children<F: Fn(&Self) -> DaftResult<TreeNodeRecursion>>(&self, f: F) -> (r: DaftResult<TreeNodeRecursion>)
        requires
            well_behaved_inspect(f),
        ensures
            r == apply_children_once_spec(inspect_of(f), *self),
    ;

    /// Applies `f` to each node top-down, as the signals allow.
    fn apply<F: Fn(&Self) -> DaftResult<TreeNodeRecursion>>(&self, f: F) -> (r: DaftResult<TreeNodeRecursion>)
        requires
            well_behaved_inspect(f),
        ensures
            r == apply_spec(inspect_of(f), *self),
    ;

    /// Whether `f` holds of some node of the tree; stops at the first one found.
    fn exists_node<F: Fn(&Self) -> bool>(&self, f: F) -> (r: bool)
        requires
            well_behaved_predicate(f),
        ensures
            r == exists_spec(predicate_of(f), *self),
    ;

    /// Rewrites with `f_down` top-down and `f_up` bottom-up: `f_down` on a
    /// node, then its children, then `f_up` on it, as the signals allow.
    fn transform_down_up<FD: Fn(Self) -> DaftResult<Transformed<Self>>, FU: Fn(Self) -> DaftResult<Transformed<Self>>>(
        self,
        f_down: FD,
        f_up: FU,
    ) -> (r: DaftResult<Transformed<Self>>)
        requires
            well_behaved(f_down),
            well_behaved(f_up),
        ensures
            r == down_up_spec(rewrite_of(f_down), rewrite_of(f_up), self, DEPTH_LIMIT as nat),
    ;

    /// Rewrites with `f` top-down: a node first, then its children.
    fn transform_down<F: Fn(Self) -> DaftResult<Transformed<Self>>>(self, f: F) -> (r: DaftResult<Transformed<Self>>)
        requires
            well_behaved(f),
        ensures
            r == down_up_spec(rewrite_of(f), no_change(), self, DEPTH_LIMIT as nat),
    ;

    /// Rewrites with `f` bottom-up: the children first, then the node.
    fn transform_up<F: Fn(Self) -> DaftResult<Transformed<Self>>>(self, f: F) -> (r: DaftResult<Transformed<Self>>)
        requires
            well_behaved(f),
        ensures
            r == down_up_spec(no_change(), rewrite_of(f), self, DEPTH_LIMIT as nat),
    ;

    /// Another name for [`TreeNodeTraversal::transform_up`].
    fn transform<F: Fn(Self) -> DaftResult<Transformed<Self>>>(self, f: F) -> (r: DaftResult<Transformed<Self>>)
        requires
            well_behaved(f),
        ensures
            r == down_up_spec(no_change(), rewrite_of(f), self, DEPTH_LIMIT as nat),
    ;
}

impl<N: TreeNode> TreeNodeTraversal for N {
    fn map_children<F: Fn(N) -> DaftResult<Transformed<N>>>(self, f: F) -> (r: DaftResult<Transformed<N>>) {
        let cs = self.children();
        if cs.len() == 0 {
            return Ok(Transformed::no(self));
        }
        match collect_items(cs, &f, true) {
            Err(e) => Err(e),
            Ok(m) => {
                if m.transformed {
                    match self.with_new_children(m.data) {
                        Ok(n2) => Ok(Transformed::new(n2, true, m.tnr)),
                        Err(e) => Err(e),
                    }
                } else {
                    Ok(Transformed::new(self, false, m.tnr))
                }
            },
        }
    }

    fn apply_children<F: Fn(&N) -> DaftResult<TreeNodeRecursion>>(&self, f: F) -> (r: DaftResult<TreeNodeRecursion>) {
        proof {
            assert forall|x: &N, r: DaftResult<TreeNodeRecursion>| call_ensures(f, (x,), r) implies r == inspect_of(f)(*x) by {
                assert(call_ensures(f, (&*x,), r));
            }
        }
        let ghost g = inspect_of(f);
        let cs = self.children();
        let ghost all = cs@;
        let mut tnr = TreeNodeRecursion::Continue;
        let mut i: usize = 0;
        while i < cs.len()
            invariant
                0 <= i <= cs.len(),
                all == cs@,
                all == self.spec_children(),
                g == inspect_of(f),
                inspects(f, g),
                tnr != TreeNodeRecursion::Stop,
                apply_until_stop_spec(g, all, i as int) == Ok::<TreeNodeRecursion, crate::error::DaftError>(tnr),
            decreases cs.len() - i,
        {
            let r = f(&cs[i]);
            i = i + 1;
            match r {
                Ok(TreeNodeRecursion::Continue) | Ok(TreeNodeRecursion::Jump) => {
                    tnr = r.unwrap();
                },
                _ => {
                    proof {
                        lemma_apply_until_stop_settled(g, all, i as int, all.len() as int);
                    }
                    return r;
                },
            }
        }
        Ok(tnr)
    }

    fn rewrite<R: TreeNodeRewriter<Node = N>>(self, rewriter: &mut R) -> (r: DaftResult<Transformed<N>>) {
        rewrite_node(self, rewriter, DEPTH_LIMIT)
    }

    fn apply<F: Fn(&N) -> DaftResult<TreeNodeRecursion>>(&self, f: F) -> (r: DaftResult<TreeNodeRecursion>) {
        proof {
            assert forall|x: &N, r: DaftResult<TreeNodeRecursion>| call_ensures(f, (x,), r) implies r == inspect_of(f)(*x) by {
                assert(call_ensures(f, (&*x,), r));
            }
        }
        apply_node(self, &f, Ghost(inspect_of(f)))
    }

    fn exists_node<F: Fn(&N) -> bool>(&self, f: F) -> (r: bool) {
        proof {
            assert forall|x: &N, b: bool| call_ensures(f, (x,), b) implies b == predicate_of(f)(*x) by {
                if b {
                    assert(call_ensures(f, (&*x,), true));
                } else {
                    assert(call_ensures(f, (&*x,), false));
                }
            }
        }
        find_in_node(self, &f, Ghost(predicate_of(f)))
    }

    fn transform_down_up<FD: Fn(N) -> DaftResult<Transformed<N>>, FU: Fn(N) -> DaftResult<Transformed<N>>>(
        self,
        f_down: FD,
        f_up: FU,
    ) -> (r: DaftResult<Transformed<N>>) {
        proof {
            lemma_computes_rewrite_of(f_down);
            lemma_computes_rewrite_of(f_up);
        }
        down_up_node(self, &f_down, &f_up, Ghost(rewrite_of(f_down)), Ghost(rewrite_of(f_up)), DEPTH_LIMIT)
    }

    fn transform_down<F: Fn(N) -> DaftResult<Transformed<N>>>(self, f: F) -> (r: DaftResult<Transformed<N>>) {
        proof {
            lemma_keep_computes_no_change::<N>();
            lemma_computes_rewrite_of(f);
        }
        down_up_node(self, &f, &keep, Ghost(rewrite_of(f)), Ghost(no_change()), DEPTH_LIMIT)
    }

    fn transform_up<F: Fn(N) -> DaftResult<Transformed<N>>>(self, f: F) -> (r: DaftResult<Transformed<N>>) {
        proof {
            lemma_keep_computes_no_change::<N>();
            lemma_computes_rewrite_of(f);
        }
        down_up_node(self, &keep, &f, Ghost(no_change()), Ghost(rewrite_of(f)), DEPTH_LIMIT)
    }

    fn transform<F: Fn(N) -> DaftResult<Transformed<N>>>(self, f: F) -> (r: DaftResult<Transformed<N>>) {
        self.transform_up(f)
    }

    fn visit<V: TreeNodeVisitor<Node = N>>(&self, visitor: &mut V) -> (r: DaftResult<
        TreeNodeRecursion,
    >) {
        visit_node(self, visitor)
    }
}

/// Inspects nodes of a tree while it is visited.
pub trait TreeNodeVisitor: Sized {
    type Node;

    /// The visitor state and the signal after `f_down` on `node`.
    spec fn spec_f_down(self, node: Self::Node) -> (Self, DaftResult<TreeNodeRecursion>);

    /// The visitor state and the signal after `f_up` on `node`.
    spec fn spec_f_up(self, node: Self::Node) -> (Self, DaftResult<TreeNodeRecursion>);

    /// Called before the children of `node` are visited.
    fn f_down(&mut self, node: &Self::Node) -> (r: DaftResult<TreeNodeRecursion>)
        ensures
            (*final(self), r) == Self::spec_f_down(*old(self), *node),
    ;

    /// Called after the children of `node` were visited.
    fn f_up(&mut self, node: &Self::Node) -> (r: DaftResult<TreeNodeRecursion>)
        ensures
            (*final(self), r) == Self::spec_f_up(*old(self), *node),
    ;
}

/// The state and signal after visiting the whole subtree of `n`.
pub open spec fn visit_spec<N: TreeNode, V: TreeNodeVisitor<Node = N>>(v: V, n: N) -> (V, DaftResult<
    TreeNodeRecursion,
>)
    decreases n.spec_size(), 1nat, 0nat,
{
    let (v1, r1) = V::spec_f_down(v, n);
    match r1 {
        Err(e) => (v1, Err(e)),
        Ok(TreeNodeRecursion::Continue) => {
            let (v2, r2) = visit_children_spec(v1, n, n.spec_children().len() as int);
            match r2 {
                Ok(TreeNodeRecursion::Continue) => V::spec_f_up(v2, n),
                _ => (v2, r2),
            }
        },
        Ok(TreeNodeRecursion::Jump) => V::spec_f_up(v1, n),
        Ok(TreeNodeRecursion::Stop) => (v1, Ok(TreeNodeRecursion::Stop)),
    }
}

/// The state and signal after visiting the first `k` children of `n` in
/// order, each after the one before it let the walk go on.
pub open spec fn visit_children_spec<N: TreeNode, V: TreeNodeVisitor<Node = N>>(
    v: V,
    n: N,
    k: int,
) -> (V, DaftResult<TreeNodeRecursion>)
    decreases n.spec_size(), 0nat, k,
{
    if k <= 0 || k > n.spec_children().len() {
        (v, Ok(TreeNodeRecursion::Continue))
    } else {
        let (v1, r1) = visit_children_spec(v, n, k - 1);
        match r1 {
            Ok(TreeNodeRecursion::Continue) | Ok(TreeNodeRecursion::Jump) => {
                let c = n.spec_children()[k - 1];
                if c.spec_size() < n.spec_size() {
                    visit_spec(v1, c)
                } else {
                    (v1, r1)
                }
            },
            _ => (v1, r1),
        }
    }
}

fn visit_node<N: TreeNode, V: TreeNodeVisitor<Node = N>>(n: &N, v: &mut V) -> (r: DaftResult<
    TreeNodeRecursion,
>)
    ensures
        (*final(v), r) == visit_spec(*old(v), *n),
    decreases n.spec_size(), 1nat, 0nat,
{
    let down = v.f_down(n);
    match down {
        Err(e) => Err(e),
        Ok(TreeNodeRecursion::Continue) => {
            let r2 = visit_children_of(n, v);
            match r2 {
                Ok(TreeNodeRecursion::Continue) => v.f_up(n),
                _ => r2,
            }
        },
        Ok(TreeNodeRecursion::Jump) => v.f_up(n),
        Ok(TreeNodeRecursion::Stop) => Ok(TreeNodeRecursion::Stop),
    }
}

fn visit_children_of<N: TreeNode, V: TreeNodeVisitor<Node = N>>(n: &N, v: &mut V) -> (r: DaftResult<
    TreeNodeRecursion,
>)
    ensures
        (*final(v), r) == visit_children_spec(*old(v), *n, n.spec_children().len() as int),
    decreases n.spec_size(), 0nat, n.spec_children().len(),
{
    let cs = n.children();
    proof {
        n.lemma_children_smaller();
    }
    let ghost v0 = *v;
    let mut tnr = TreeNodeRecursion::Continue;
    let mut i: usize = 0;
    while i < cs.len()
        invariant
            cs@ == n.spec_children(),
            v0 == *old(v),
            0 <= i <= cs.len(),
            tnr != TreeNodeRecursion::Stop,
            (*v, Ok::<TreeNodeRecursion, crate::error::DaftError>(tnr)) == visit_children_spec(v0, *n, i as int),
            forall|j: int| 0 <= j < cs@.len() ==> #[trigger] cs@[j].spec_size() < n.spec_size(),
        decreases cs.len() - i,
    {
        let r = visit_node(&cs[i], v);
        i = i + 1;
        match r {
            Err(e) => {
                assert(visit_children_spec(v0, *n, i as int) == (*v, r));
                proof {
                    lemma_visit_children_settled(v0, *n, i as int, cs.len() as int);
                }
                return Err(e);
            },
            Ok(TreeNodeRecursion::Stop) => {
                assert(visit_children_spec(v0, *n, i as int) == (*v, r));
                proof {
                    lemma_visit_children_settled(v0, *n, i as int, cs.len() as int);
                }
                return Ok(TreeNodeRecursion::Stop);
            },
            Ok(t) => {
                tnr = t;
            },
        }
    }
    Ok(tnr)
}

/// Once the walk over the children errs or stops, later children change nothing.
proof fn lemma_visit_children_settled<N: TreeNode, V: TreeNodeVisitor<Node = N>>(v: V, n: N, i: int, k: int)
    requires
        0 < i <= k <= n.spec_children().len(),
        match visit_children_spec(v, n, i).1 {
            Ok(TreeNodeRecursion::Stop) | Err(_) => true,
            _ => false,
        },
    ensures
        visit_children_spec(v, n, k) == visit_children_spec(v, n, i),
    decreases k - i,
{
    if k > i {
        lemma_visit_children_settled(v, n, i, k - 1);
    }
}


/// A node rewrite as a function of the node.
pub type RewriteFn<N> = spec_fn(N) -> DaftResult<Transformed<N>>;

/// The rewrite that a deterministic closure performs.
pub open spec fn rewrite_of<N, F: Fn(N) -> DaftResult<Transformed<N>>>(f: F) -> RewriteFn<N> {
    |x: N| call_result(f, x)
}

/// The rewrite that leaves every node as it is.
pub open spec fn no_change<N>() -> RewriteFn<N> {
    |x: N| Ok(spec_no(x))
}

/// A bound on the depth of a rewriting walk, far beyond what any call stack reaches.
pub const DEPTH_LIMIT: u64 = 0xffff_ffff_ffff_ffff;

/// The combined rewrite: `fd` top-down, then the children, then `fu`
/// bottom-up, as the signals allow. Below `depth` levels nothing changes.
pub open spec fn down_up_spec<N: TreeNode>(fd: RewriteFn<N>, fu: RewriteFn<N>, n: N, depth: nat) -> DaftResult<
    Transformed<N>,
>
    decreases depth, 0nat, 0nat,
{
    if depth == 0 {
        Ok(spec_no(n))
    } else {
        match fd(n) {
            Err(e) => Err(e),
            Ok(t) => {
                let after_children = match t.tnr {
                    TreeNodeRecursion::Continue => match map_children_spec(fd, fu, t.data, (depth - 1) as nat) {
                        Ok(m) => Ok(or_flag(m, t.transformed)),
                        Err(e) => Err(e),
                    },
                    TreeNodeRecursion::Jump => Ok(mk_transformed(t.data, t.transformed, TreeNodeRecursion::Continue)),
                    TreeNodeRecursion::Stop => Ok(t),
                };
                match after_children {
                    Err(e) => Err(e),
                    Ok(c) => if c.tnr == TreeNodeRecursion::Continue {
                        match fu(c.data) {
                            Ok(u) => Ok(or_flag(u, c.transformed)),
                            Err(e) => Err(e),
                        }
                    } else {
                        Ok(c)
                    },
                }
            },
        }
    }
}

/// The children of `n` rewritten one after the other; `n` is rebuilt only
/// when one of them changed.
pub open spec fn map_children_spec<N: TreeNode>(fd: RewriteFn<N>, fu: RewriteFn<N>, n: N, depth: nat) -> DaftResult<
    Transformed<N>,
>
    decreases depth, 2nat, 0nat,
{
    let cs = n.spec_children();
    if cs.len() == 0 {
        Ok(spec_no(n))
    } else {
        match map_prefix_spec(fd, fu, cs, cs.len() as int, depth) {
            Err(e) => Err(e),
            Ok(m) => if m.transformed {
                match n.spec_with_new_children(m.data) {
                    Ok(n2) => Ok(mk_transformed(n2, true, m.tnr)),
                    Err(e) => Err(e),
                }
            } else {
                Ok(mk_transformed(n, false, m.tnr))
            },
        }
    }
}

/// The first `k` siblings of `cs` rewritten in order; after a `Stop` the
/// rest are kept as they are.
pub open spec fn map_prefix_spec<N: TreeNode>(
    fd: RewriteFn<N>,
    fu: RewriteFn<N>,
    cs: Seq<N>,
    k: int,
    depth: nat,
) -> DaftResult<Transformed<Seq<N>>>
    decreases depth, 1nat, k,
{
    if k <= 0 || k > cs.len() {
        Ok(mk_transformed(Seq::empty(), false, TreeNodeRecursion::Continue))
    } else {
        match map_prefix_spec(fd, fu, cs, k - 1, depth) {
            Err(e) => Err(e),
            Ok(acc) => if acc.tnr == TreeNodeRecursion::Stop {
                Ok(mk_transformed(acc.data.push(cs[k - 1]), acc.transformed, TreeNodeRecursion::Stop))
            } else {
                match down_up_spec(fd, fu, cs[k - 1], depth) {
                    Err(e) => Err(e),
                    Ok(t) => Ok(mk_transformed(acc.data.push(t.data), acc.transformed || t.transformed, t.tnr)),
                }
            },
        }
    }
}

/// A closure that leaves its argument unchanged.
fn keep<N>(x: N) -> (r: DaftResult<Transformed<N>>)
    ensures
        r == Ok::<Transformed<N>, crate::error::DaftError>(spec_no(x)),
{
    Ok(Transformed::no(x))
}

/// `f` may be called everywhere and each of its results is the one `g` gives.
pub open spec fn computes<N, F: Fn(N) -> DaftResult<Transformed<N>>>(f: F, g: RewriteFn<N>) -> bool {
    &&& callable_everywhere(f)
    &&& forall|x: N, r: DaftResult<Transformed<N>>| call_ensures(f, (x,), r) ==> r == g(x)
}

proof fn lemma_computes_rewrite_of<N, F: Fn(N) -> DaftResult<Transformed<N>>>(f: F)
    requires
        well_behaved(f),
    ensures
        computes(f, rewrite_of(f)),
{
    assert forall|x: N, r: DaftResult<Transformed<N>>| call_ensures(f, (x,), r) implies r == rewrite_of(f)(x) by {
        lemma_call_result(f, x, r);
    }
}

proof fn lemma_keep_computes_no_change<N>()
    ensures
        computes(keep::<N>, no_change::<N>()),
{
}

fn down_up_node<N: TreeNode, FD: Fn(N) -> DaftResult<Transformed<N>>, FU: Fn(N) -> DaftResult<Transformed<N>>>(
    n: N,
    fd: &FD,
    fu: &FU,
    fds: Ghost<RewriteFn<N>>,
    fus: Ghost<RewriteFn<N>>,
    depth: u64,
) -> (r: DaftResult<Transformed<N>>)
    requires
        computes(*fd, fds@),
        computes(*fu, fus@),
    ensures
        r == down_up_spec(fds@, fus@, n, depth as nat),
    decreases depth, 0nat, 0nat,
{
    if depth == 0 {
        return Ok(Transformed::no(n));
    }
    let down = fd(n);
    let t = match down {
        Err(e) => return Err(e),
        Ok(t) => t,
    };
    let c = match t.tnr {
        TreeNodeRecursion::Continue => {
            let m = map_children_node(t.data, fd, fu, fds, fus, depth - 1);
            match m {
                Ok(m) => Transformed::new(m.data, m.transformed || t.transformed, m.tnr),
                Err(e) => return Err(e),
            }
        },
        TreeNodeRecursion::Jump => Transformed::new(t.data, t.transformed, TreeNodeRecursion::Continue),
        TreeNodeRecursion::Stop => t,
    };
    if c.tnr == TreeNodeRecursion::Continue {
        let up = fu(c.data);
        match up {
            Ok(u) => Ok(Transformed::new(u.data, u.transformed || c.transformed, u.tnr)),
            Err(e) => Err(e),
        }
    } else {
        Ok(c)
    }
}

fn map_children_node<N: TreeNode, FD: Fn(N) -> DaftResult<Transformed<N>>, FU: Fn(N) -> DaftResult<Transformed<N>>>(
    n: N,
    fd: &FD,
    fu: &FU,
    fds: Ghost<RewriteFn<N>>,
    fus: Ghost<RewriteFn<N>>,
    depth: u64,
) -> (r: DaftResult<Transformed<N>>)
    requires
        computes(*fd, fds@),
        computes(*fu, fus@),
    ensures
        r == map_children_spec(fds@, fus@, n, depth as nat),
    decreases depth, 2nat, 0nat,
{
    let cs = n.children();
    if cs.len() == 0 {
        return Ok(Transformed::no(n));
    }
    let m = map_prefix_nodes(cs, fd, fu, fds, fus, depth);
    match m {
        Err(e) => Err(e),
        Ok(m) => {
            if m.transformed {
                match n.with_new_children(m.data) {
                    Ok(n2) => Ok(Transformed::new(n2, true, m.tnr)),
                    Err(e) => Err(e),
                }
            } else {
                Ok(Transformed::new(n, false, m.tnr))
            }
        },
    }
}

fn map_prefix_nodes<N: TreeNode, FD: Fn(N) -> DaftResult<Transformed<N>>, FU: Fn(N) -> DaftResult<Transformed<N>>>(
    cs: Vec<N>,
    fd: &FD,
    fu: &FU,
    fds: Ghost<RewriteFn<N>>,
    fus: Ghost<RewriteFn<N>>,
    depth: u64,
) -> (r: DaftResult<Transformed<Vec<N>>>)
    requires
        computes(*fd, fds@),
        computes(*fu, fus@),
    ensures
        match (r, map_prefix_spec(fds@, fus@, cs@, cs@.len() as int, depth as nat)) {
            (Ok(a), Ok(b)) => a.data@ == b.data && a.transformed == b.transformed && a.tnr == b.tnr,
            (Err(a), Err(b)) => a == b,
            _ => false,
        },
    decreases depth, 1nat, cs@.len(),
{
    let ghost all = cs@;
    let n = cs.len();
    let mut rest = cs;
    let mut out: Vec<N> = Vec::new();
    let mut transformed = false;
    let mut tnr = TreeNodeRecursion::Continue;
    let mut i: usize = 0;
    while i < n
        invariant
            0 <= i <= n,
            n == all.len(),
            rest@ == all.subrange(i as int, n as int),
            map_prefix_spec(fds@, fus@, all, i as int, depth as nat) == Ok::<Transformed<Seq<N>>, crate::error::DaftError>(
                mk_transformed(out@, transformed, tnr),
            ),
            all == cs@,
            computes(*fd, fds@),
            computes(*fu, fus@),
        decreases n - i,
    {
        let item = rest.remove(0);
        assert(item == all[i as int]);
        if tnr == TreeNodeRecursion::Stop {
            out.push(item);
        } else {
            let t = down_up_node(item, fd, fu, fds, fus, depth);
            match t {
                Err(e) => {
                    assert(map_prefix_spec(fds@, fus@, all, i + 1, depth as nat) == Err::<Transformed<Seq<N>>, crate::error::DaftError>(e));
                    proof {
                        lemma_map_prefix_err(fds@, fus@, all, i + 1, n as int, depth as nat);
                    }
                    return Err(e);
                },
                Ok(t) => {
                    out.push(t.data);
                    transformed = transformed || t.transformed;
                    tnr = t.tnr;
                },
            }
        }
        i = i + 1;
        assert(rest@ =~= all.subrange(i as int, n as int));
    }
    assert(all.len() == n);
    Ok(Transformed::new(out, transformed, tnr))
}

proof fn lemma_map_prefix_err<N: TreeNode>(fd: RewriteFn<N>, fu: RewriteFn<N>, cs: Seq<N>, i: int, k: int, depth: nat)
    requires
        0 < i <= k <= cs.len(),
        map_prefix_spec(fd, fu, cs, i, depth) is Err,
    ensures
        map_prefix_spec(fd, fu, cs, k, depth) == map_prefix_spec(fd, fu, cs, i, depth),
    decreases k - i,
{
    if k > i {
        lemma_map_prefix_err(fd, fu, cs, i, k - 1, depth);
    }
}


/// A node inspection as a function of the node.
pub type InspectFn<N> = spec_fn(N) -> DaftResult<TreeNodeRecursion>;

/// `f` may be called on every node and each of its results is the one `g` gives.
pub open spec fn inspects<N, F: Fn(&N) -> DaftResult<TreeNodeRecursion>>(f: F, g: InspectFn<N>) -> bool {
    &&& forall|x: &N| call_requires(f, (x,))
    &&& forall|x: &N, r: DaftResult<TreeNodeRecursion>| call_ensures(f, (x,), r) ==> r == g(*x)
}

/// The inspection that a deterministic closure performs.
pub open spec fn inspect_of<N, F: Fn(&N) -> DaftResult<TreeNodeRecursion>>(f: F) -> InspectFn<N> {
    |x: N| choose|r: DaftResult<TreeNodeRecursion>| call_ensures(f, (&x,), r)
}

/// `f` may be called on every node and gives at most one result on each.
pub open spec fn well_behaved_inspect<N, F: Fn(&N) -> DaftResult<TreeNodeRecursion>>(f: F) -> bool {
    &&& forall|x: &N| call_requires(f, (x,))
    &&& forall|x: &N, r1: DaftResult<TreeNodeRecursion>, r2: DaftResult<TreeNodeRecursion>|
        call_ensures(f, (x,), r1) && call_ensures(f, (x,), r2) ==> r1 == r2
}

/// The signal after applying `g` top-down to the subtree of `n`.
pub open spec fn apply_spec<N: TreeNode>(g: InspectFn<N>, n: N) -> DaftResult<TreeNodeRecursion>
    decreases n.spec_size(), 1nat, 0nat,
{
    match g(n) {
        Ok(TreeNodeRecursion::Continue) => apply_children_spec(g, n, n.spec_children().len() as int),
        Ok(TreeNodeRecursion::Jump) => Ok(TreeNodeRecursion::Continue),
        other => other,
    }
}

/// The signal after applying `g` to the subtrees of the first `k` children of `n`.
pub open spec fn apply_children_spec<N: TreeNode>(g: InspectFn<N>, n: N, k: int) -> DaftResult<TreeNodeRecursion>
    decreases n.spec_size(), 0nat, k,
{
    if k <= 0 || k > n.spec_children().len() {
        Ok(TreeNodeRecursion::Continue)
    } else {
        match apply_children_spec(g, n, k - 1) {
            Ok(TreeNodeRecursion::Continue) | Ok(TreeNodeRecursion::Jump) => {
                let c = n.spec_children()[k - 1];
                if c.spec_size() < n.spec_size() {
                    apply_spec(g, c)
                } else {
                    Ok(TreeNodeRecursion::Continue)
                }
            },
            other => other,
        }
    }
}

/// Whether `p` holds of some node in the subtree of `n`.
pub open spec fn exists_spec<N: TreeNode>(p: spec_fn(N) -> bool, n: N) -> bool
    decreases n.spec_size(), 1nat, 0nat,
{
    p(n) || exists_in_children_spec(p, n, n.spec_children().len() as int)
}

/// Whether `p` holds of some node in the subtrees of the first `k` children of `n`.
pub open spec fn exists_in_children_spec<N: TreeNode>(p: spec_fn(N) -> bool, n: N, k: int) -> bool
    decreases n.spec_size(), 0nat, k,
{
    if k <= 0 || k > n.spec_children().len() {
        false
    } else {
        exists_in_children_spec(p, n, k - 1) || {
            let c = n.spec_children()[k - 1];
            c.spec_size() < n.spec_size() && exists_spec(p, c)
        }
    }
}

/// The predicate that a deterministic closure decides.
pub open spec fn predicate_of<N, F: Fn(&N) -> bool>(f: F) -> spec_fn(N) -> bool {
    |x: N| call_ensures(f, (&x,), true)
}

/// `f` may be called on every node and gives at most one result on each.
pub open spec fn well_behaved_predicate<N, F: Fn(&N) -> bool>(f: F) -> bool {
    &&& forall|x: &N| call_requires(f, (x,))
    &&& forall|x: &N, r1: bool, r2: bool| call_ensures(f, (x,), r1) && call_ensures(f, (x,), r2) ==> r1 == r2
}

fn apply_node<N: TreeNode, F: Fn(&N) -> DaftResult<TreeNodeRecursion>>(n: &N, f: &F, g: Ghost<InspectFn<N>>) -> (r:
    DaftResult<TreeNodeRecursion>)
    requires
        inspects(*f, g@),
    ensures
        r == apply_spec(g@, *n),
    decreases n.spec_size(), 1nat, 0nat,
{
    match f(n) {
        Ok(TreeNodeRecursion::Continue) => apply_children_of(n, f, g),
        Ok(TreeNodeRecursion::Jump) => Ok(TreeNodeRecursion::Continue),
        other => other,
    }
}

fn apply_children_of<N: TreeNode, F: Fn(&N) -> DaftResult<TreeNodeRecursion>>(n: &N, f: &F, g: Ghost<InspectFn<N>>) -> (r:
    DaftResult<TreeNodeRecursion>)
    requires
        inspects(*f, g@),
    ensures
        r == apply_children_spec(g@, *n, n.spec_children().len() as int),
    decreases n.spec_size(), 0nat, n.spec_children().len(),
{
    let cs = n.children();
    proof {
        n.lemma_children_smaller();
    }
    let mut tnr = TreeNodeRecursion::Continue;
    let mut i: usize = 0;
    while i < cs.len()
        invariant
            cs@ == n.spec_children(),
            inspects(*f, g@),
            0 <= i <= cs.len(),
            tnr != TreeNodeRecursion::Stop,
            Ok::<TreeNodeRecursion, crate::error::DaftError>(tnr) == apply_children_spec(g@, *n, i as int),
            forall|j: int| 0 <= j < cs@.len() ==> #[trigger] cs@[j].spec_size() < n.spec_size(),
        decreases cs.len() - i,
    {
        let r = apply_node(&cs[i], f, g);
        i = i + 1;
        match r {
            Ok(TreeNodeRecursion::Continue) | Ok(TreeNodeRecursion::Jump) => {
                tnr = r.unwrap();
            },
            _ => {
                proof {
                    lemma_apply_children_settled(g@, *n, i as int, cs.len() as int);
                }
                return r;
            },
        }
    }
    Ok(tnr)
}

proof fn lemma_apply_children_settled<N: TreeNode>(g: InspectFn<N>, n: N, i: int, k: int)
    requires
        0 < i <= k <= n.spec_children().len(),
        match apply_children_spec(g, n, i) {
            Ok(TreeNodeRecursion::Stop) | Err(_) => true,
            _ => false,
        },
    ensures
        apply_children_spec(g, n, k) == apply_children_spec(g, n, i),
    decreases k - i,
{
    if k > i {
        lemma_apply_children_settled(g, n, i, k - 1);
    }
}

fn find_in_node<N: TreeNode, F: Fn(&N) -> bool>(n: &N, f: &F, p: Ghost<spec_fn(N) -> bool>) -> (r: bool)
    requires
        forall|x: &N| call_requires(*f, (x,)),
        forall|x: &N, b: bool| call_ensures(*f, (x,), b) ==> b == p@(*x),
    ensures
        r == exists_spec(p@, *n),
    decreases n.spec_size(), 1nat, 0nat,
{
    if f(n) {
        return true;
    }
    let cs = n.children();
    proof {
        n.lemma_children_smaller();
    }
    let mut i: usize = 0;
    while i < cs.len()
        invariant
            cs@ == n.spec_children(),
            forall|x: &N| call_requires(*f, (x,)),
            forall|x: &N, b: bool| call_ensures(*f, (x,), b) ==> b == p@(*x),
            !p@(*n),
            0 <= i <= cs.len(),
            !exists_in_children_spec(p@, *n, i as int),
            forall|j: int| 0 <= j < cs@.len() ==> #[trigger] cs@[j].spec_size() < n.spec_size(),
        decreases cs.len() - i,
    {
        let found = find_in_node(&cs[i], f, p);
        i = i + 1;
        if found {
            proof {
                lemma_exists_in_children_grows(p@, *n, i as int, cs.len() as int);
            }
            return true;
        }
    }
    false
}

proof fn lemma_exists_in_children_grows<N: TreeNode>(p: spec_fn(N) -> bool, n: N, i: int, k: int)
    requires
        0 < i <= k <= n.spec_children().len(),
        exists_in_children_spec(p, n, i),
    ensures
        exists_in_children_spec(p, n, k),
    decreases k - i,
{
    if k > i {
        lemma_exists_in_children_grows(p, n, i, k - 1);
    }
}


/// Rewrites nodes of a tree while it is walked, with a state of its own.
pub trait TreeNodeRewriter: Sized {
    type Node;

    /// The rewriter state and the result after `f_down` on `node`.
    spec fn spec_f_down(self, node: Self::Node) -> (Self, DaftResult<Transformed<Self::Node>>);

    /// The rewriter state and the result after `f_up` on `node`.
    spec fn spec_f_up(self, node: Self::Node) -> (Self, DaftResult<Transformed<Self::Node>>);

    /// Called before the children of `node` are rewritten.
    fn f_down(&mut self, node: Self::Node) -> (r: DaftResult<Transformed<Self::Node>>)
        ensures
            (*final(self), r) == Self::spec_f_down(*old(self), node),
    ;

    /// Called after the children of `node` were rewritten.
    fn f_up(&mut self, node: Self::Node) -> (r: DaftResult<Transformed<Self::Node>>)
        ensures
            (*final(self), r) == Self::spec_f_up(*old(self), node),
    ;
}

/// The rewriter state and the result after rewriting the subtree of `n`:
/// `f_down`, then the children, then `f_up`, as the signals allow.
pub open spec fn rewrite_spec<N: TreeNode, R: TreeNodeRewriter<Node = N>>(rw: R, n: N, depth: nat) -> (R, DaftResult<
    Transformed<N>,
>)
    decreases depth, 0nat, 0nat,
{
    if depth == 0 {
        (rw, Ok(spec_no(n)))
    } else {
        let (r1, d) = R::spec_f_down(rw, n);
        match d {
            Err(e) => (r1, Err(e)),
            Ok(t) => {
                let (r2, after) = match t.tnr {
                    TreeNodeRecursion::Continue => {
                        let (r2, m) = rewrite_children_spec(r1, t.data, (depth - 1) as nat);
                        (r2, match m {
                            Ok(m) => Ok(or_flag(m, t.transformed)),
                            Err(e) => Err(e),
                        })
                    },
                    TreeNodeRecursion::Jump => (r1, Ok(mk_transformed(t.data, t.transformed, TreeNodeRecursion::Continue))),
                    TreeNodeRecursion::Stop => (r1, Ok(t)),
                };
                match after {
                    Err(e) => (r2, Err(e)),
                    Ok(c) => if c.tnr == TreeNodeRecursion::Continue {
                        let (r3, u) = R::spec_f_up(r2, c.data);
                        (r3, match u {
                            Ok(u) => Ok(or_flag(u, c.transformed)),
                            Err(e) => Err(e),
                        })
                    } else {
                        (r2, Ok(c))
                    },
                }
            },
        }
    }
}

/// The children of `n` rewritten one after the other with the rewriter;
/// `n` is rebuilt only when one of them changed.
pub open spec fn rewrite_children_spec<N: TreeNode, R: TreeNodeRewriter<Node = N>>(rw: R, n: N, depth: nat) -> (R, DaftResult<
    Transformed<N>,
>)
    decreases depth, 2nat, 0nat,
{
    let cs = n.spec_children();
    if cs.len() == 0 {
        (rw, Ok(spec_no(n)))
    } else {
        let (r1, m) = rewrite_prefix_spec(rw, cs, cs.len() as int, depth);
        (r1, match m {
            Err(e) => Err(e),
            Ok(m) => if m.transformed {
                match n.spec_with_new_children(m.data) {
                    Ok(n2) => Ok(mk_transformed(n2, true, m.tnr)),
                    Err(e) => Err(e),
                }
            } else {
                Ok(mk_transformed(n, false, m.tnr))
            },
        })
    }
}

/// The first `k` siblings of `cs` rewritten in order with the rewriter;
/// after a `Stop` the rest are kept as they are.
pub open spec fn rewrite_prefix_spec<N: TreeNode, R: TreeNodeRewriter<Node = N>>(
    rw: R,
    cs: Seq<N>,
    k: int,
    depth: nat,
) -> (R, DaftResult<Transformed<Seq<N>>>)
    decreases depth, 1nat, k,
{
    if k <= 0 || k > cs.len() {
        (rw, Ok(mk_transformed(Seq::empty(), false, TreeNodeRecursion::Continue)))
    } else {
        let (r1, p) = rewrite_prefix_spec(rw, cs, k - 1, depth);
        match p {
            Err(e) => (r1, Err(e)),
            Ok(acc) => if acc.tnr == TreeNodeRecursion::Stop {
                (r1, Ok(mk_transformed(acc.data.push(cs[k - 1]), acc.transformed, TreeNodeRecursion::Stop)))
            } else {
                let (r2, t) = rewrite_spec(r1, cs[k - 1], depth);
                (r2, match t {
                    Err(e) => Err(e),
                    Ok(t) => Ok(mk_transformed(acc.data.push(t.data), acc.transformed || t.transformed, t.tnr)),
                })
            },
        }
    }
}

fn rewrite_node<N: TreeNode, R: TreeNodeRewriter<Node = N>>(n: N, rw: &mut R, depth: u64) -> (r: DaftResult<Transformed<N>>)
    ensures
        (*final(rw), r) == rewrite_spec(*old(rw), n, depth as nat),
    decreases depth, 0nat, 0nat,
{
    if depth == 0 {
        return Ok(Transformed::no(n));
    }
    let t = match rw.f_down(n) {
        Err(e) => return Err(e),
        Ok(t) => t,
    };
    let c = match t.tnr {
        TreeNodeRecursion::Continue => {
            match rewrite_children_node(t.data, rw, depth - 1) {
                Ok(m) => Transformed::new(m.data, m.transformed || t.transformed, m.tnr),
                Err(e) => return Err(e),
            }
        },
        TreeNodeRecursion::Jump => Transformed::new(t.data, t.transformed, TreeNodeRecursion::Continue),
        TreeNodeRecursion::Stop => t,
    };
    if c.tnr == TreeNodeRecursion::Continue {
        match rw.f_up(c.data) {
            Ok(u) => Ok(Transformed::new(u.data, u.transformed || c.transformed, u.tnr)),
            Err(e) => Err(e),
        }
    } else {
        Ok(c)
    }
}

fn rewrite_children_node<N: TreeNode, R: TreeNodeRewriter<Node = N>>(n: N, rw: &mut R, depth: u64) -> (r: DaftResult<
    Transformed<N>,
>)
    ensures
        (*final(rw), r) == rewrite_children_spec(*old(rw), n, depth as nat),
    decreases depth, 2nat, 0nat,
{
    let cs = n.children();
    if cs.len() == 0 {
        return Ok(Transformed::no(n));
    }
    match rewrite_prefix_nodes(cs, rw, depth) {
        Err(e) => Err(e),
        Ok(m) => {
            if m.transformed {
                match n.with_new_children(m.data) {
                    Ok(n2) => Ok(Transformed::new(n2, true, m.tnr)),
                    Err(e) => Err(e),
                }
            } else {
                Ok(Transformed::new(n, false, m.tnr))
            }
        },
    }
}

fn rewrite_prefix_nodes<N: TreeNode, R: TreeNodeRewriter<Node = N>>(cs: Vec<N>, rw: &mut R, depth: u64) -> (r: DaftResult<
    Transformed<Vec<N>>,
>)
    ensures
        ({
            let (rs, s) = rewrite_prefix_spec(*old(rw), cs@, cs@.len() as int, depth as nat);
            *final(rw) == rs && match (r, s) {
                (Ok(a), Ok(b)) => a.data@ == b.data && a.transformed == b.transformed && a.tnr == b.tnr,
                (Err(a), Err(b)) => a == b,
                _ => false,
            }
        }),
    decreases depth, 1nat, cs@.len(),
{
    let ghost all = cs@;
    let ghost r0 = *rw;
    let n = cs.len();
    let mut rest = cs;
    let mut out: Vec<N> = Vec::new();
    let mut transformed = false;
    let mut tnr = TreeNodeRecursion::Continue;
    let mut i: usize = 0;
    while i < n
        invariant
            0 <= i <= n,
            n == all.len(),
            all == cs@,
            r0 == *old(rw),
            rest@ == all.subrange(i as int, n as int),
            rewrite_prefix_spec(r0, all, i as int, depth as nat) == (*rw, Ok::<Transformed<Seq<N>>, crate::error::DaftError>(
                mk_transformed(out@, transformed, tnr),
            )),
        decreases n - i,
    {
        let item = rest.remove(0);
        assert(item == all[i as int]);
        if tnr == TreeNodeRecursion::Stop {
            out.push(item);
        } else {
            let t = rewrite_node(item, rw, depth);
            match t {
                Err(e) => {
                    proof {
                        lemma_rewrite_prefix_err(r0, all, i + 1, n as int, depth as nat);
                    }
                    return Err(e);
                },
                Ok(t) => {
                    out.push(t.data);
                    transformed = transformed || t.transformed;
                    tnr = t.tnr;
                },
            }
        }
        i = i + 1;
        assert(rest@ =~= all.subrange(i as int, n as int));
    }
    Ok(Transformed::new(out, transformed, tnr))
}

proof fn lemma_rewrite_prefix_err<N: TreeNode, R: TreeNodeRewriter<Node = N>>(rw: R, cs: Seq<N>, i: int, k: int, depth: nat)
    requires
        0 < i <= k <= cs.len(),
        rewrite_prefix_spec(rw, cs, i, depth).1 is Err,
    ensures
        rewrite_prefix_spec(rw, cs, k, depth) == rewrite_prefix_spec(rw, cs, i, depth),
    decreases k - i,
{
    if k > i {
        lemma_rewrite_prefix_err(rw, cs, i, k - 1, depth);
    }
}

/// A node kept behind a shared pointer whose children are shared pointers
/// too; every `Arc` of such a node is a [`TreeNode`].
pub trait DynTreeNode: Sized {
    /// The children, in order.
    spec fn spec_arc_children(&self) -> Seq<Arc<Self>>;

    /// A measure that each child has below its parent.
    spec fn spec_node_size(&self) -> nat;

    /// What replacing the children by `children` yields.
    spec fn spec_with_new_arc_children(self, children: Seq<Arc<Self>>) -> DaftResult<Arc<Self>>;

    proof fn lemma_arc_children_smaller(&self)
        ensures
            forall|i: int|
                0 <= i < self.spec_arc_children().len() ==> #[trigger] self.spec_arc_children()[i].spec_node_size()
                    < self.spec_node_size(),
    ;

    /// The children, in order.
    fn arc_children(&self) -> (r: Vec<Arc<Self>>)
        ensures
            r@ == self.spec_arc_children(),
    ;

    /// A node like this one with `new_children` in place of its children.
    fn with_new_arc_children(this: Arc<Self>, new_children: Vec<Arc<Self>>) -> (r: DaftResult<Arc<Self>>)
        ensures
            r == (*this).spec_with_new_arc_children(new_children@),
    ;
}

impl<T: DynTreeNode> TreeNode for Arc<T> {
    open spec fn spec_children(&self) -> Seq<Arc<T>> {
        (**self).spec_arc_children()
    }

    open spec fn spec_size(&self) -> nat {
        (**self).spec_node_size()
    }

    open spec fn spec_with_new_children(self, children: Seq<Arc<T>>) -> DaftResult<Arc<T>> {
        (*self).spec_with_new_arc_children(children)
    }

    proof fn lemma_children_smaller(&self) {
        (**self).lemma_arc_children_smaller();
    }

    fn children(&self) -> (r: Vec<Arc<T>>) {
        (**self).arc_children()
    }

    fn with_new_children(self, children: Vec<Arc<T>>) -> (r: DaftResult<Arc<T>>) {
        T::with_new_arc_children(self, children)
    }
}


/// A node that owns its children and can detach them from itself and take
/// new ones; every such node is a [`TreeNode`].
pub trait ConcreteTreeNode: Sized {
    /// The children, in order.
    spec fn spec_concrete_children(&self) -> Seq<Self>;

    /// A measure that each child has below its parent.
    spec fn spec_concrete_size(&self) -> nat;

    /// What attaching `children` to the node (in place of its own) yields.
    spec fn spec_reattach(self, children: Seq<Self>) -> DaftResult<Self>;

    proof fn lemma_concrete_children_smaller(&self)
        ensures
            forall|i: int|
                0 <= i < self.spec_concrete_children().len() ==> #[trigger] self.spec_concrete_children()[i].spec_concrete_size()
                    < self.spec_concrete_size(),
    ;

    /// Copies of the children, in order.
    fn children(&self) -> (r: Vec<Self>)
        ensures
            r@ == self.spec_concrete_children(),
    ;

    /// Detaches the children: the node without them, and the children.
    fn take_children(self) -> (r: (Self, Vec<Self>))
        ensures
            r.1@ == self.spec_concrete_children(),
            forall|cs: Seq<Self>| #[trigger] r.0.spec_reattach(cs) == self.spec_reattach(cs),
    ;

    /// Attaches `children` to the node.
    fn with_new_children(self, children: Vec<Self>) -> (r: DaftResult<Self>)
        ensures
            r == self.spec_reattach(children@),
    ;
}

impl<T: ConcreteTreeNode> TreeNode for T {
    open spec fn spec_children(&self) -> Seq<T> {
        self.spec_concrete_children()
    }

    open spec fn spec_size(&self) -> nat {
        self.spec_concrete_size()
    }

    open spec fn spec_with_new_children(self, children: Seq<T>) -> DaftResult<T> {
        self.spec_reattach(children)
    }

    proof fn lemma_children_smaller(&self) {
        self.lemma_concrete_children_smaller();
    }

    fn children(&self) -> (r: Vec<T>) {
        <T as ConcreteTreeNode>::children(self)
    }

    fn with_new_children(self, children: Vec<T>) -> (r: DaftResult<T>) {
        let (stem, _old) = self.take_children();
        <T as ConcreteTreeNode>::with_new_children(stem, children)
    }
}

/// The signal after applying `g` to the first `k` items of `s` in order,
/// ending early on `Stop` or an error.
pub open spec fn apply_until_stop_spec<T>(g: spec_fn(T) -> DaftResult<TreeNodeRecursion>, s: Seq<T>, k: int) -> DaftResult<
    TreeNodeRecursion,
>
    decreases k,
{
    if k <= 0 || k > s.len() {
        Ok(TreeNodeRecursion::Continue)
    } else {
        match apply_until_stop_spec(g, s, k - 1) {
            Ok(TreeNodeRecursion::Continue) | Ok(TreeNodeRecursion::Jump) => g(s[k - 1]),
            other => other,
        }
    }
}

/// The first `k` items of `s` mapped by `g` in order; when `stop_early`,
/// the items after a `Stop` are kept as they are.
pub open spec fn collect_spec<T>(g: RewriteFn<T>, s: Seq<T>, k: int, stop_early: bool) -> DaftResult<Transformed<Seq<T>>>
    decreases k,
{
    if k <= 0 || k > s.len() {
        Ok(mk_transformed(Seq::empty(), false, TreeNodeRecursion::Continue))
    } else {
        match collect_spec(g, s, k - 1, stop_early) {
            Err(e) => Err(e),
            Ok(acc) => if stop_early && acc.tnr == TreeNodeRecursion::Stop {
                Ok(mk_transformed(acc.data.push(s[k - 1]), acc.transformed, TreeNodeRecursion::Stop))
            } else {
                match g(s[k - 1]) {
                    Err(e) => Err(e),
                    Ok(t) => Ok(mk_transformed(acc.data.push(t.data), acc.transformed || t.transformed, t.tnr)),
                }
            },
        }
    }
}

/// The result of a collecting map, with the items as a sequence.
pub open spec fn collected_view<T>(r: DaftResult<Transformed<Vec<T>>>) -> DaftResult<Transformed<Seq<T>>> {
    match r {
        Ok(t) => Ok(mk_transformed(t.data@, t.transformed, t.tnr)),
        Err(e) => Err(e),
    }
}

proof fn lemma_apply_until_stop_settled<T>(g: spec_fn(T) -> DaftResult<TreeNodeRecursion>, s: Seq<T>, i: int, k: int)
    requires
        0 < i <= k <= s.len(),
        match apply_until_stop_spec(g, s, i) {
            Ok(TreeNodeRecursion::Stop) | Err(_) => true,
            _ => false,
        },
    ensures
        apply_until_stop_spec(g, s, k) == apply_until_stop_spec(g, s, i),
    decreases k - i,
{
    if k > i {
        lemma_apply_until_stop_settled(g, s, i, k - 1);
    }
}

proof fn lemma_collect_err<T>(g: RewriteFn<T>, s: Seq<T>, i: int, k: int, stop_early: bool)
    requires
        0 < i <= k <= s.len(),
        collect_spec(g, s, i, stop_early) is Err,
    ensures
        collect_spec(g, s, k, stop_early) == collect_spec(g, s, i, stop_early),
    decreases k - i,
{
    if k > i {
        lemma_collect_err(g, s, i, k - 1, stop_early);
    }
}

fn collect_items<T, F: Fn(T) -> DaftResult<Transformed<T>>>(items: Vec<T>, f: &F, stop_early: bool) -> (r: DaftResult<
    Transformed<Vec<T>>,
>)
    requires
        well_behaved(*f),
    ensures
        collected_view(r) == collect_spec(rewrite_of(*f), items@, items@.len() as int, stop_early),
{
    proof {
        lemma_computes_rewrite_of(*f);
    }
    let ghost all = items@;
    let n = items.len();
    let mut rest = items;
    let mut out: Vec<T> = Vec::new();
    let mut transformed = false;
    let mut tnr = TreeNodeRecursion::Continue;
    let mut i: usize = 0;
    while i < n
        invariant
            0 <= i <= n,
            n == all.len(),
            all == items@,
            computes(*f, rewrite_of(*f)),
            rest@ == all.subrange(i as int, n as int),
            collect_spec(rewrite_of(*f), all, i as int, stop_early) == Ok::<Transformed<Seq<T>>, crate::error::DaftError>(
                mk_transformed(out@, transformed, tnr),
            ),
        decreases n - i,
    {
        let item = rest.remove(0);
        assert(item == all[i as int]);
        if stop_early && tnr == TreeNodeRecursion::Stop {
            out.push(item);
        } else {
            match f(item) {
                Err(e) => {
                    proof {
                        lemma_collect_err(rewrite_of(*f), all, i + 1, n as int, stop_early);
                    }
                    return Err(e);
                },
                Ok(t) => {
                    out.push(t.data);
                    transformed = transformed || t.transformed;
                    tnr = t.tnr;
                },
            }
        }
        i = i + 1;
        assert(rest@ =~= all.subrange(i as int, n as int));
    }
    Ok(Transformed::new(out, transformed, tnr))
}

/// Runs callbacks over a sequence of siblings.
pub trait TreeNodeIterator<T>: Sized {
    /// The items, in order.
    spec fn spec_items(&self) -> Seq<T>;

    /// Applies `f` to each item in order until it returns `Stop` or an
    /// error; gives the last signal, or `Continue` when there is no item.
    fn apply_until_stop<F: Fn(T) -> DaftResult<TreeNodeRecursion>>(self, f: F) -> (r: DaftResult<TreeNodeRecursion>)
        requires
            well_behaved(f),
        ensures
            r == apply_until_stop_spec(|x: T| call_result(f, x), self.spec_items(), self.spec_items().len() as int),
    ;

    /// Maps each item with `f` in order; after a `Stop` the remaining items
    /// are kept as they are. The flag is the or of all flags, the signal the
    /// one of the last call.
    fn map_until_stop_and_collect<F: Fn(T) -> DaftResult<Transformed<T>>>(self, f: F) -> (r: DaftResult<
        Transformed<Vec<T>>,
    >)
        requires
            well_behaved(f),
        ensures
            collected_view(r) == collect_spec(rewrite_of(f), self.spec_items(), self.spec_items().len() as int, true),
    ;

    /// Maps every item with `f` in order, whatever the signals.
    fn map_and_collect<F: Fn(T) -> DaftResult<Transformed<T>>>(self, f: F) -> (r: DaftResult<Transformed<Vec<T>>>)
        requires
            well_behaved(f),
        ensures
            collected_view(r) == collect_spec(rewrite_of(f), self.spec_items(), self.spec_items().len() as int, false),
    ;
}

impl<T> TreeNodeIterator<T> for Vec<T> {
    open spec fn spec_items(&self) -> Seq<T> {
        self@
    }

    fn apply_until_stop<F: Fn(T) -> DaftResult<TreeNodeRecursion>>(self, f: F) -> (r: DaftResult<TreeNodeRecursion>) {
        let ghost g = |x: T| call_result(f, x);
        let ghost all = self@;
        let n = self.len();
        let mut rest = self;
        let mut tnr = TreeNodeRecursion::Continue;
        let mut i: usize = 0;
        while i < n
            invariant
                0 <= i <= n,
                n == all.len(),
                all == self@,
                g == (|x: T| call_result(f, x)),
                well_behaved(f),
                rest@ == all.subrange(i as int, n as int),
                tnr != TreeNodeRecursion::Stop,
                apply_until_stop_spec(g, all, i as int) == Ok::<TreeNodeRecursion, crate::error::DaftError>(tnr),
            decreases n - i,
        {
            let item = rest.remove(0);
            assert(item == all[i as int]);
            let ghost gi = item;
            let r = f(item);
            proof {
                lemma_call_result(f, gi, r);
            }
            i = i + 1;
            assert(rest@ =~= all.subrange(i as int, n as int));
            match r {
                Ok(TreeNodeRecursion::Continue) | Ok(TreeNodeRecursion::Jump) => {
                    tnr = r.unwrap();
                },
                _ => {
                    proof {
                        lemma_apply_until_stop_settled(g, all, i as int, n as int);
                    }
                    return r;
                },
            }
        }
        Ok(tnr)
    }

    fn map_until_stop_and_collect<F: Fn(T) -> DaftResult<Transformed<T>>>(self, f: F) -> (r: DaftResult<
        Transformed<Vec<T>>,
    >) {
        collect_items(self, &f, true)
    }

    fn map_and_collect<F: Fn(T) -> DaftResult<Transformed<T>>>(self, f: F) -> (r: DaftResult<Transformed<Vec<T>>>) {
        collect_items(self, &f, false)
    }
}

/// The children of `n` mapped once each by `g` in order, with the sibling
/// rule; `n` is rebuilt only when one of them changed.
pub open spec fn map_children_once_spec<N: TreeNode>(g: RewriteFn<N>, n: N) -> DaftResult<Transformed<N>> {
    let cs = n.spec_children();
    if cs.len() == 0 {
        Ok(spec_no(n))
    } else {
        match collect_spec(g, cs, cs.len() as int, true) {
            Err(e) => Err(e),
            Ok(m) => if m.transformed {
                match n.spec_with_new_children(m.data) {
                    Ok(n2) => Ok(mk_transformed(n2, true, m.tnr)),
                    Err(e) => Err(e),
                }
            } else {
                Ok(mk_transformed(n, false, m.tnr))
            },
        }
    }
}

/// The signal after inspecting the children of `n` once each with `g`, in
/// order, ending early on `Stop` or an error.
pub open spec fn apply_children_once_spec<N: TreeNode>(g: InspectFn<N>, n: N) -> DaftResult<TreeNodeRecursion> {
    apply_until_stop_spec(g, n.spec_children(), n.spec_children().len() as int)
}

/// Reads the parts of a fallible rewrite result.
pub trait TransformedResult<T>: Sized {
    /// The data, or the error.
    fn data(self) -> DaftResult<T>;

    /// The flag, or the error.
    fn transformed(self) -> DaftResult<bool>;

    /// The signal, or the error.
    fn tnr(self) -> DaftResult<TreeNodeRecursion>;
}

impl<T> TransformedResult<T> for DaftResult<Transformed<T>> {
    fn data(self) -> (r: DaftResult<T>)
        ensures
            r == (match self {
                Ok(t) => Ok::<T, crate::error::DaftError>(t.data),
                Err(e) => Err(e),
            }),
    {
        match self {
            Ok(t) => Ok(t.data),
            Err(e) => Err(e),
        }
    }

    fn transformed(self) -> (r: DaftResult<bool>)
        ensures
            r == (match self {
                Ok(t) => Ok::<bool, crate::error::DaftError>(t.transformed),
                Err(e) => Err(e),
            }),
    {
        match self {
            Ok(t) => Ok(t.transformed),
            Err(e) => Err(e),
        }
    }

    fn tnr(self) -> (r: DaftResult<TreeNodeRecursion>)
        ensures
            r == (match self {
                Ok(t) => Ok::<TreeNodeRecursion, crate::error::DaftError>(t.tnr),
                Err(e) => Err(e),
            }),
    {
        match self {
            Ok(t) => Ok(t.tnr),
            Err(e) => Err(e),
        }
    }
}

} // verus!
