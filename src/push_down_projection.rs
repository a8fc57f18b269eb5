//! Projection push-down: prunes the columns a plan reads by moving column
//! selections as close to the sources as the operators allow.
use std::sync::Arc;
use vstd::prelude::*;

use crate::colset::{
    column_set_union, column_set_intersection, kept_in, column_set_contains, column_set_get, column_set_insert, column_set_items, column_set_len,
    column_set_from, column_set_new, dedup, dedup_onto, flatten_sets, lemma_dedup_onto_concat, ColumnSet,
};
use crate::error::DaftResult;
use crate::expr::{
    bindings_view, has_udf, lemma_exprs_view_prefix, lemma_exprs_view_push, lemma_replace_columns_seq_push, column_refs, column_refs_seq, exprs_view, needs_computation, get_required_columns, lemma_exprs_view_index, name_of, names_of, replace_columns,
    replace_columns_seq, replace_columns_with_expressions, requires_computation, resolved_col, strings_view,
    contains_udf_call, lookup, Bindings, Expr, ExprRef, ExprView,
};
use crate::plan::{
    leaf_columns, node_required, list_names, plan_children, plan_schema, plan_with_children, Aggregate, ExprList, Join, JoinType, LogicalPlan,
    LogicalPlanRef, Pivot, Project, Source, SourceInfo, UDFProject,
};
use crate::treenode::{Transformed, TreeNodeRecursion, DEPTH_LIMIT};
use crate::treenode::DynTreeNode;
use crate::schema::{field_names, kept_fields, Field};

verus! {

/// Whether `p` holds none of the nodes that must be gone before column
/// pruning: sinks, unions, subquery aliases and placeholder sources.
pub open spec fn pushdown_ready(p: LogicalPlan) -> bool
    decreases p,
{
    match p {
        LogicalPlan::Source(s) => !((*s.source_info) is PlaceHolder),
        LogicalPlan::Sink { .. } | LogicalPlan::Union { .. } | LogicalPlan::SubqueryAlias { .. } => false,
        LogicalPlan::Project(x) => pushdown_ready(*x.input),
        LogicalPlan::UDFProject(x) => pushdown_ready(*x.input),
        LogicalPlan::Aggregate(x) => pushdown_ready(*x.input),
        LogicalPlan::Pivot(x) => pushdown_ready(*x.input),
        LogicalPlan::Join(j) => pushdown_ready(*j.left) && pushdown_ready(*j.right),
        LogicalPlan::Concat { input, other } => pushdown_ready(*input) && pushdown_ready(*other),
        LogicalPlan::Intersect { lhs, rhs } => pushdown_ready(*lhs) && pushdown_ready(*rhs),
        LogicalPlan::Filter { input, .. } | LogicalPlan::Sort { input, .. } | LogicalPlan::Limit { input, .. }
        | LogicalPlan::TopN { input, .. } | LogicalPlan::Sample { input, .. } | LogicalPlan::Explode { input, .. }
        | LogicalPlan::Repartition { input, .. } | LogicalPlan::Shard { input, .. } | LogicalPlan::Unpivot { input, .. }
        | LogicalPlan::Distinct { input, .. } | LogicalPlan::Window { input, .. }
        | LogicalPlan::MonotonicallyIncreasingId { input, .. } => pushdown_ready(*input),
    }
}

/// A plan the rule accepts: ready for pruning, or a sink at the root over such a plan.
pub open spec fn rule_input_ok(p: LogicalPlan) -> bool {
    match p {
        LogicalPlan::Sink { input } => pushdown_ready(*input),
        _ => pushdown_ready(p),
    }
}

/// Whether `p` holds no node that computes a user-defined function column.
pub open spec fn no_udf_project(p: LogicalPlan) -> bool
    decreases p,
{
    match p {
        LogicalPlan::Source(_) => true,
        LogicalPlan::UDFProject(_) => false,
        LogicalPlan::Project(x) => no_udf_project(*x.input),
        LogicalPlan::Aggregate(x) => no_udf_project(*x.input),
        LogicalPlan::Pivot(x) => no_udf_project(*x.input),
        LogicalPlan::Join(j) => no_udf_project(*j.left) && no_udf_project(*j.right),
        LogicalPlan::Concat { input, other } => no_udf_project(*input) && no_udf_project(*other),
        LogicalPlan::Intersect { lhs, rhs } | LogicalPlan::Union { lhs, rhs } => no_udf_project(*lhs) && no_udf_project(
            *rhs,
        ),
        LogicalPlan::Filter { input, .. } | LogicalPlan::Sort { input, .. } | LogicalPlan::Limit { input, .. }
        | LogicalPlan::TopN { input, .. } | LogicalPlan::Sample { input, .. } | LogicalPlan::Explode { input, .. }
        | LogicalPlan::Repartition { input, .. } | LogicalPlan::Shard { input, .. } | LogicalPlan::Unpivot { input, .. }
        | LogicalPlan::Distinct { input, .. } | LogicalPlan::Window { input, .. }
        | LogicalPlan::MonotonicallyIncreasingId { input, .. } | LogicalPlan::Sink { input }
        | LogicalPlan::SubqueryAlias { input, .. } => no_udf_project(*input),
    }
}

/// What a rewrite of `before` into `after` keeps: an unchanged result is
/// the input itself, the signal is `Continue`, readiness and the absence of
/// user-defined function nodes are kept, without such nodes the output
/// column names stay the same, in the same order, and the leaves read no
/// column they did not read before.
pub open spec fn rewrite_keeps(before: LogicalPlanRef, after: Transformed<LogicalPlanRef>) -> bool {
    &&& !after.transformed ==> after.data == before
    &&& after.tnr == TreeNodeRecursion::Continue
    &&& pushdown_ready(*before) ==> pushdown_ready(*after.data)
    &&& no_udf_project(*before) ==> no_udf_project(*after.data) && plan_schema(*after.data) == plan_schema(*before)
    &&& leaf_columns(*after.data).subset_of(leaf_columns(*before))
}

/// The same, for a walk whose root may be a sink.
pub open spec fn walk_keeps(before: LogicalPlanRef, after: Transformed<LogicalPlanRef>) -> bool {
    &&& !after.transformed ==> after.data == before
    &&& after.tnr == TreeNodeRecursion::Continue
    &&& rule_input_ok(*before) ==> rule_input_ok(*after.data)
    &&& no_udf_project(*before) ==> no_udf_project(*after.data) && plan_schema(*after.data) == plan_schema(*before)
    &&& leaf_columns(*after.data).subset_of(leaf_columns(*before))
}

/// Whether `p` is a projection of `input` onto the columns `cols`, in order.
pub open spec fn projects_onto(p: LogicalPlan, input: LogicalPlanRef, cols: Seq<Seq<char>>) -> bool {
    p matches LogicalPlan::Project(x) && x.input == input && exprs_view((*x.projection)@) == cols.map_values(
        |c: Seq<char>| ExprView::Column(c),
    )
}

/// Whether a projection selects exactly the columns of its input, in order.
pub open spec fn projection_is_noop(x: Project) -> bool {
    let s = plan_schema(*x.input);
    let e = exprs_view((*x.projection)@);
    &&& e.len() == s.len()
    &&& forall|i: int| 0 <= i < e.len() ==> #[trigger] e[i] == ExprView::Column(s[i])
}

/// Whether a projection cannot prune anything through `p`: an operator that
/// needs every input column, a distinct over all columns, or an in-memory source.
pub open spec fn blocks_pruning(p: LogicalPlan) -> bool {
    match p {
        LogicalPlan::Intersect { .. } | LogicalPlan::Pivot(_) | LogicalPlan::MonotonicallyIncreasingId { .. }
        | LogicalPlan::Window { .. } => true,
        LogicalPlan::Distinct { columns, .. } => columns is None,
        LogicalPlan::Source(s) => (*s.source_info) is InMemory,
        _ => false,
    }
}

/// Whether `p` passes its input's columns through unchanged and reads some of them.
pub open spec fn passes_through(p: LogicalPlan) -> bool {
    p is Sort || p is Shard || p is Repartition || p is Limit || p is TopN || p is Filter || p is Sample || p is Explode
}

/// Whether a projection `x` (the node `plan`) over a user-defined function
/// node rewrites it: the function column is unused, or the projection only
/// renames columns it reads once each, or some passed-through column is unused.
pub open spec fn udf_case_rewrites(plan: LogicalPlan, x: Project) -> bool {
    match *x.input {
        LogicalPlan::UDFProject(u) => {
            let req = node_required(plan)[0];
            ||| !req.contains(name_of((*u.project)@))
            ||| (forall|i: int| 0 <= i < (*x.projection)@.len() ==> !needs_computation((*#[trigger] (*x.projection)@[i])@))
                && column_refs_seq(exprs_view((*x.projection)@)).no_duplicates()
            ||| req.len() < plan_schema(*x.input).len()
        },
        _ => false,
    }
}

/// The aggregation node that `p` is.
pub open spec fn aggregate_of(p: LogicalPlan) -> Aggregate
    recommends
        p is Aggregate,
{
    p->Aggregate_0
}

/// The output names of the id and value columns of an unpivot.
pub open spec fn unpivot_input_names(p: LogicalPlan) -> Seq<Seq<char>> {
    match p {
        LogicalPlan::Unpivot { ids, values, .. } => list_names(ids) + list_names(values),
        _ => Seq::empty(),
    }
}

/// The projection node that `p` is.
pub open spec fn project_of_plan(p: LogicalPlan) -> Project
    recommends
        p is Project,
{
    p->Project_0
}

/// The join node that `p` is.
pub open spec fn join_of(p: LogicalPlan) -> Join
    recommends
        p is Join,
{
    p->Join_0
}

/// Whether the rule looks at a node of this kind at all.
pub open spec fn is_rule_node(p: LogicalPlan) -> bool {
    p is Project || p is UDFProject || p is Aggregate || p is Join || p is Pivot
}

/// Whether no node of `p` is one the rule looks at.
pub open spec fn no_rule_nodes(p: LogicalPlan) -> bool
    decreases p,
{
    match p {
        LogicalPlan::Source(_) => true,
        LogicalPlan::Project(_) | LogicalPlan::UDFProject(_) | LogicalPlan::Aggregate(_) | LogicalPlan::Join(_)
        | LogicalPlan::Pivot(_) => false,
        LogicalPlan::Concat { input, other } => no_rule_nodes(*input) && no_rule_nodes(*other),
        LogicalPlan::Intersect { lhs, rhs } | LogicalPlan::Union { lhs, rhs } => no_rule_nodes(*lhs) && no_rule_nodes(
            *rhs,
        ),
        LogicalPlan::Filter { input, .. } | LogicalPlan::Sort { input, .. } | LogicalPlan::Limit { input, .. }
        | LogicalPlan::TopN { input, .. } | LogicalPlan::Sample { input, .. } | LogicalPlan::Explode { input, .. }
        | LogicalPlan::Repartition { input, .. } | LogicalPlan::Shard { input, .. } | LogicalPlan::Unpivot { input, .. }
        | LogicalPlan::Distinct { input, .. } | LogicalPlan::Window { input, .. }
        | LogicalPlan::MonotonicallyIncreasingId { input, .. } | LogicalPlan::Sink { input }
        | LogicalPlan::SubqueryAlias { input, .. } => no_rule_nodes(*input),
    }
}

/// Whether the rule rewrites the root of `p` itself: a projection that
/// selects its input unchanged, a projection over a scan or a distinct
/// that can be narrowed, or a node whose input has more columns than it reads.
pub open spec fn root_rewrite_due(p: LogicalPlan) -> bool {
    match p {
        LogicalPlan::Project(x) => projection_is_noop(x) || match *x.input {
            LogicalPlan::Source(s) => (*s.source_info) is Physical && node_required(p)[0].len() < plan_schema(
                *x.input,
            ).len(),
            LogicalPlan::Distinct { columns, .. } => columns is Some,
            _ => false,
        },
        LogicalPlan::UDFProject(u) => node_required(p)[0].len() < plan_schema(*u.input).len(),
        LogicalPlan::Aggregate(a) => node_required(p)[0].len() < plan_schema(*a.input).len(),
        LogicalPlan::Pivot(v) => node_required(p)[0].len() < plan_schema(*v.input).len(),
        LogicalPlan::Join(j) => (j.join_type == JoinType::Semi || j.join_type == JoinType::Anti) && node_required(
            p,
        )[1].len() < plan_schema(*j.right).len(),
        _ => false,
    }
}

/// `after` is `before` over a projection of its input onto `cols`.
pub open spec fn udf_project_pruned(before: UDFProject, after: LogicalPlan, cols: Seq<Seq<char>>) -> bool {
    after matches LogicalPlan::UDFProject(u) && (u.project == before.project && u.passthrough_columns
        == before.passthrough_columns && projects_onto(*u.input, before.input, cols))
}

/// `after` is `before` over a projection of its input onto `cols`.
pub open spec fn aggregate_pruned(before: Aggregate, after: LogicalPlan, cols: Seq<Seq<char>>) -> bool {
    after matches LogicalPlan::Aggregate(a) && (a.aggregations == before.aggregations && a.groupby == before.groupby
        && projects_onto(*a.input, before.input, cols))
}

/// `after` is `before` over a projection of its input onto `cols`.
pub open spec fn pivot_pruned(before: Pivot, after: LogicalPlan, cols: Seq<Seq<char>>) -> bool {
    after matches LogicalPlan::Pivot(p) && (p.group_by == before.group_by && p.pivot_column == before.pivot_column
        && p.value_column == before.value_column && p.names == before.names && projects_onto(*p.input, before.input, cols))
}

/// Whether `p` holds none of the nodes that must be gone before column pruning.
pub fn is_pushdown_ready(p: &LogicalPlan) -> (r: bool)
    ensures
        r == pushdown_ready(*p),
    decreases p,
{
    match p {
        LogicalPlan::Source(s) => match &*s.source_info {
            SourceInfo::PlaceHolder(_) => false,
            _ => true,
        },
        LogicalPlan::Sink { .. } | LogicalPlan::Union { .. } | LogicalPlan::SubqueryAlias { .. } => false,
        LogicalPlan::Project(x) => is_pushdown_ready(&x.input),
        LogicalPlan::UDFProject(x) => is_pushdown_ready(&x.input),
        LogicalPlan::Aggregate(x) => is_pushdown_ready(&x.input),
        LogicalPlan::Pivot(x) => is_pushdown_ready(&x.input),
        LogicalPlan::Join(j) => is_pushdown_ready(&j.left) && is_pushdown_ready(&j.right),
        LogicalPlan::Concat { input, other } => is_pushdown_ready(input) && is_pushdown_ready(other),
        LogicalPlan::Intersect { lhs, rhs } => is_pushdown_ready(lhs) && is_pushdown_ready(rhs),
        LogicalPlan::Filter { input, .. } | LogicalPlan::Sort { input, .. } | LogicalPlan::Limit { input, .. }
        | LogicalPlan::TopN { input, .. } | LogicalPlan::Sample { input, .. } | LogicalPlan::Explode { input, .. }
        | LogicalPlan::Repartition { input, .. } | LogicalPlan::Shard { input, .. } | LogicalPlan::Unpivot {
            input,
            ..
        } | LogicalPlan::Distinct { input, .. } | LogicalPlan::Window { input, .. }
        | LogicalPlan::MonotonicallyIncreasingId { input, .. } => is_pushdown_ready(input),
    }
}

/// Whether the rule accepts `p`: ready for pruning, or a sink at the root
/// over such a plan.
pub fn is_rule_input_ok(p: &LogicalPlan) -> (r: bool)
    ensures
        r == rule_input_ok(*p),
{
    match p {
        LogicalPlan::Sink { input } => is_pushdown_ready(input),
        _ => is_pushdown_ready(p),
    }
}

/// `m` is the node `p` with new inputs: those of `m`.
pub open spec fn rebuilt_from(p: LogicalPlan, m: LogicalPlanRef) -> bool {
    plan_with_children(p, plan_children(*m)) == Ok::<LogicalPlanRef, crate::error::DaftError>(m)
}

/// The only input of `m`.
pub open spec fn input_of(m: LogicalPlanRef) -> LogicalPlanRef {
    plan_children(*m)[0]
}

/// Whether projection `x` may be merged into the projection `y` below it:
/// no computed column of `y` is read twice by `x`.
pub open spec fn merge_ok(x: Project, y: Project) -> bool {
    kept_in(column_refs_seq(exprs_view((*x.projection)@)), dedup(non_column_names((*y.projection)@))).no_duplicates()
}

/// Whether projection `x` may be folded into a function node below it: it
/// computes nothing and reads each column once.
pub open spec fn inline_ok(x: Project) -> bool {
    &&& forall|i: int| 0 <= i < (*x.projection)@.len() ==> !needs_computation((*#[trigger] (*x.projection)@[i])@)
    &&& column_refs_seq(exprs_view((*x.projection)@)).no_duplicates()
}

/// The expressions of `s` that call a user-defined function, in order.
pub open spec fn with_udf(s: Seq<ExprView>) -> Seq<ExprView>
    decreases s.len(),
{
    if s.len() == 0 {
        s
    } else if has_udf(s.last()) {
        with_udf(s.drop_last()).push(s.last())
    } else {
        with_udf(s.drop_last())
    }
}

/// The expressions of `s` that call no user-defined function, in order.
pub open spec fn without_udf(s: Seq<ExprView>) -> Seq<ExprView>
    decreases s.len(),
{
    if s.len() == 0 {
        s
    } else if has_udf(s.last()) {
        without_udf(s.drop_last())
    } else {
        without_udf(s.drop_last()).push(s.last())
    }
}

/// `new` is what a join input `orig` becomes under a projection.
pub open spec fn side_result(orig: LogicalPlanRef, new: LogicalPlanRef, sd: Seq<Seq<char>>, pd: Seq<Seq<char>>) -> bool {
    if side_prunes(*orig, sd, pd) {
        projects_onto(*new, orig, side_columns(*orig, sd, pd))
    } else {
        new == orig
    }
}

/// `m` is the projection `p` over a source `s` narrowed to the columns in `req`,
/// in schema order, with the scan asked to read just those.
pub open spec fn source_step(p: LogicalPlan, s: Source, req: Seq<Seq<char>>, m: LogicalPlanRef) -> bool {
    let kept = kept_fields((*s.output_schema)@, req);
    &&& rebuilt_from(p, m)
    &&& *input_of(m) matches LogicalPlan::Source(s2)
    &&& (*s2.output_schema)@ == kept
    &&& match (*s.source_info, *s2.source_info) {
        (SourceInfo::Physical(i1), SourceInfo::Physical(i2)) => i2.source_schema == i1.source_schema
            && i2.pushdowns.filters == i1.pushdowns.filters && i2.pushdowns.partition_filters
            == i1.pushdowns.partition_filters && i2.pushdowns.limit == i1.pushdowns.limit && (i2.pushdowns.columns matches Some(
            c,
        ) && strings_view((*c)@) == field_names(kept)),
        _ => false,
    }
}

/// The step for a projection `x` (the node `p`) over a function node `v`.
pub open spec fn udf_step(p: LogicalPlan, x: Project, v: UDFProject, req: Seq<Seq<char>>, m: LogicalPlanRef) -> bool {
    if !req.contains(name_of((*v.project)@)) {
        rebuilt_from(p, m) && (*input_of(m) matches LogicalPlan::Project(w) && w.input == v.input && w.projection
            == v.passthrough_columns)
    } else if inline_ok(x) {
        let merged = replace_columns_seq(
            exprs_view((*x.projection)@),
            own_bindings(exprs_view((*v.passthrough_columns)@)).push((name_of((*v.project)@), (*v.project)@)),
        );
        if with_udf(merged).len() > 0 {
            *m matches LogicalPlan::UDFProject(w) && w.input == v.input && (*w.project)@ == with_udf(merged)[0]
                && exprs_view((*w.passthrough_columns)@) == without_udf(merged)
        } else {
            *m matches LogicalPlan::Project(w) && w.input == v.input && exprs_view((*w.projection)@) == merged
        }
    } else {
        rebuilt_from(p, m) && (*input_of(m) matches LogicalPlan::UDFProject(w) && w.input == v.input && w.project
            == v.project && (*w.passthrough_columns)@ == kept_by_name((*v.passthrough_columns)@, req))
    }
}

/// The local rewrite of a projection `x` (the node `p`) by the kind of node below it.
pub open spec fn project_step(p: LogicalPlan, x: Project, m: LogicalPlanRef) -> bool {
    let u = *x.input;
    let req = node_required(p)[0];
    if projection_is_noop(x) {
        m == x.input
    } else if (u is Project) && merge_ok(x, project_of_plan(u)) {
        let y = project_of_plan(u);
        *m matches LogicalPlan::Project(z) && z.input == y.input && exprs_view((*z.projection)@) == replace_columns_seq(
            exprs_view((*x.projection)@),
            own_bindings(exprs_view((*y.projection)@)),
        )
    } else if passes_through(u) {
        rebuilt_from(p, m) && rebuilt_from(u, input_of(m)) && projects_onto(
            *input_of(input_of(m)),
            plan_children(u)[0],
            dedup(node_required(p)[0] + node_required(u)[0]),
        )
    } else {
        match u {
            LogicalPlan::Source(s) => source_step(p, s, req, m),
            LogicalPlan::Project(y) => rebuilt_from(p, m) && (*input_of(m) matches LogicalPlan::Project(w) && w.input
                == y.input && (*w.projection)@ == kept_by_name((*y.projection)@, req)),
            LogicalPlan::Aggregate(a) => rebuilt_from(p, m) && (*input_of(m) matches LogicalPlan::Aggregate(b) && b.input
                == a.input && b.groupby == a.groupby && (*b.aggregations)@ == kept_by_name((*a.aggregations)@, req)),
            LogicalPlan::UDFProject(v) => udf_step(p, x, v, req, m),
            LogicalPlan::Unpivot { .. } => rebuilt_from(p, m) && rebuilt_from(u, input_of(m)) && projects_onto(
                *input_of(input_of(m)),
                plan_children(u)[0],
                kept_in(dedup(unpivot_input_names(u)), dedup(req + node_required(u)[0])),
            ),
            LogicalPlan::Concat { input, other } => {
                let cols = dedup(req + node_required(u)[0] + node_required(u)[1]);
                rebuilt_from(p, m) && (*input_of(m) matches LogicalPlan::Concat { input: i2, other: o2 } && projects_onto(
                    *i2,
                    input,
                    cols,
                ) && projects_onto(*o2, other, cols))
            },
            LogicalPlan::Join(j) => rebuilt_from(p, m) && (*input_of(m) matches LogicalPlan::Join(k) && k.left_on
                == j.left_on && k.right_on == j.right_on && k.join_type == j.join_type && side_result(
                j.left,
                k.left,
                node_required(u)[0],
                req,
            ) && side_result(j.right, k.right, node_required(u)[1], req)),
            LogicalPlan::Distinct { input, columns } => rebuilt_from(p, m) && (*input_of(m) matches LogicalPlan::Distinct {
                input: i2,
                columns: c2,
            } && c2 == columns && projects_onto(*i2, input, dedup(req + node_required(u)[0]))),
            _ => false,
        }
    }
}

/// Whether the rule rewrites the projection `x` (the node `p`) itself.
pub open spec fn project_applies(p: LogicalPlan, x: Project) -> bool {
    let u = *x.input;
    let req = node_required(p)[0];
    if projection_is_noop(x) {
        true
    } else if passes_through(u) {
        plan_schema(*plan_children(u)[0]).len() != dedup(req + node_required(u)[0]).len()
    } else {
        match u {
            LogicalPlan::Source(s) => (*s.source_info) is Physical && req.len() < plan_schema(u).len(),
            LogicalPlan::Project(y) => merge_ok(x, y) || req.len() < plan_schema(u).len(),
            LogicalPlan::Aggregate(a) => kept_by_name((*a.aggregations)@, req).len() < (*a.aggregations)@.len(),
            LogicalPlan::UDFProject(_) => udf_case_rewrites(p, x),
            LogicalPlan::Unpivot { .. } => plan_schema(*plan_children(u)[0]).len() != kept_in(
                dedup(unpivot_input_names(u)),
                dedup(req + node_required(u)[0]),
            ).len(),
            LogicalPlan::Concat { .. } => plan_schema(*plan_children(u)[0]).len() != dedup(
                req + node_required(u)[0] + node_required(u)[1],
            ).len(),
            LogicalPlan::Join(j) => side_prunes(*j.left, node_required(u)[0], req) || side_prunes(
                *j.right,
                node_required(u)[1],
                req,
            ),
            LogicalPlan::Distinct { columns, .. } => columns is Some,
            _ => false,
        }
    }
}

/// `m` is the semi or anti join `j` with its right input projected onto `cols`.
pub open spec fn join_pruned(j: Join, m: LogicalPlan, cols: Seq<Seq<char>>) -> bool {
    m matches LogicalPlan::Join(k) && (k.left == j.left && k.left_on == j.left_on && k.right_on == j.right_on
        && k.join_type == j.join_type && projects_onto(*k.right, j.right, cols))
}

/// Whether the rule rewrites the root of `p` itself.
pub open spec fn root_applies(p: LogicalPlan) -> bool {
    match p {
        LogicalPlan::Project(x) => project_applies(p, x),
        LogicalPlan::UDFProject(u) => node_required(p)[0].len() < plan_schema(*u.input).len(),
        LogicalPlan::Aggregate(a) => node_required(p)[0].len() < plan_schema(*a.input).len(),
        LogicalPlan::Pivot(v) => node_required(p)[0].len() < plan_schema(*v.input).len(),
        LogicalPlan::Join(j) => (j.join_type == JoinType::Semi || j.join_type == JoinType::Anti) && node_required(
            p,
        )[1].len() < plan_schema(*j.right).len(),
        _ => false,
    }
}

/// The local rewrite of the root of `p`, when one applies.
pub open spec fn root_step(p: LogicalPlan, m: LogicalPlanRef) -> bool {
    match p {
        LogicalPlan::Project(x) => project_step(p, x, m),
        LogicalPlan::UDFProject(u) => udf_project_pruned(u, *m, node_required(p)[0]),
        LogicalPlan::Aggregate(a) => aggregate_pruned(a, *m, node_required(p)[0]),
        LogicalPlan::Pivot(v) => pivot_pruned(v, *m, node_required(p)[0]),
        LogicalPlan::Join(j) => join_pruned(j, *m, node_required(p)[1]),
        _ => false,
    }
}

/// Whether the rule looks at the result of the local rewrite of `p` again.
pub open spec fn root_reenters(p: LogicalPlan) -> bool {
    match p {
        LogicalPlan::Project(x) => projection_is_noop(x) || !(*x.input is Distinct),
        LogicalPlan::Join(_) => true,
        _ => false,
    }
}

/// `q` is what the rule makes of the root of `p`: `p` itself when no local
/// rewrite applies; otherwise the local rewrite, looked at again (while
/// `fuel` lasts) where the rule does so.
pub open spec fn rule_node_rel(p: LogicalPlanRef, q: LogicalPlanRef, fuel: nat) -> bool
    decreases fuel,
{
    if !root_applies(*p) {
        q == p
    } else {
        exists|m: LogicalPlanRef|
            #[trigger] root_step(*p, m) && if root_reenters(*p) && fuel > 0 {
                rule_node_rel(m, q, (fuel - 1) as nat)
            } else {
                q == m
            }
    }
}

/// `q` is what the top-down walk of the rule makes of `p`: the rule on the
/// root, then the walk on each input of the result.
pub open spec fn walk_rel(p: LogicalPlanRef, q: LogicalPlanRef, depth: nat) -> bool
    decreases depth,
{
    if depth == 0 {
        q == p
    } else {
        exists|m: LogicalPlanRef|
            #[trigger] rule_node_rel(p, m, DEPTH_LIMIT as nat) && {
                let cs = plan_children(*m);
                if cs.len() == 0 {
                    q == m
                } else {
                    exists|ncs: Seq<LogicalPlanRef>|
                        #[trigger] plan_with_children(*m, ncs) == Ok::<LogicalPlanRef, crate::error::DaftError>(q)
                            && ncs.len() == cs.len() && forall|i: int|
                            0 <= i < cs.len() ==> walk_rel(cs[i], #[trigger] ncs[i], (depth - 1) as nat)
                }
            }
    }
}

/// The projection push-down rule.
#[derive(Debug)]
pub struct PushDownProjection {}

fn with_child(plan: &LogicalPlanRef, child: LogicalPlanRef) -> (r: LogicalPlanRef)
    requires
        plan_children(**plan).len() == 1,
    ensures
        plan_with_children(**plan, seq![child]) == Ok::<LogicalPlanRef, crate::error::DaftError>(r),
        pushdown_ready(**plan) && pushdown_ready(*child) ==> pushdown_ready(*r),
        no_udf_project(**plan) && no_udf_project(*child) ==> no_udf_project(*r),
        plan_schema(*child) == plan_schema(*plan_children(**plan)[0]) ==> plan_schema(*r) == plan_schema(**plan),
        (**plan is Project || **plan is UDFProject || **plan is Aggregate || **plan is Pivot) ==> plan_schema(*r)
            == plan_schema(**plan),
        !(**plan is Sink) ==> !(*r is Sink),
        leaf_columns(*r) == leaf_columns(*child),
        leaf_columns(**plan) == leaf_columns(*plan_children(**plan)[0]),
{
    let mut v: Vec<LogicalPlanRef> = Vec::new();
    v.push(child);
    assert(v@ =~= seq![child]);
    match LogicalPlan::with_new_arc_children(plan.clone(), v) {
        Ok(p) => p,
        Err(_) => {
            assert(false);
            plan.clone()
        },
    }
}

fn with_two_children(plan: &LogicalPlanRef, a: LogicalPlanRef, b: LogicalPlanRef) -> (r: LogicalPlanRef)
    requires
        plan_children(**plan).len() == 2,
    ensures
        plan_with_children(**plan, seq![a, b]) == Ok::<LogicalPlanRef, crate::error::DaftError>(r),
        pushdown_ready(**plan) && pushdown_ready(*a) && pushdown_ready(*b) ==> pushdown_ready(*r),
        no_udf_project(**plan) && no_udf_project(*a) && no_udf_project(*b) ==> no_udf_project(*r),
        plan_schema(*a) == plan_schema(*plan_children(**plan)[0]) && (**plan matches LogicalPlan::Join(j) && (
        j.join_type == JoinType::Semi || j.join_type == JoinType::Anti)) ==> plan_schema(*r) == plan_schema(**plan),
        !(*r is Sink),
        leaf_columns(*r) == leaf_columns(*a).union(leaf_columns(*b)),
        leaf_columns(**plan) == leaf_columns(*plan_children(**plan)[0]).union(leaf_columns(*plan_children(**plan)[1])),
{
    let mut v: Vec<LogicalPlanRef> = Vec::new();
    v.push(a);
    v.push(b);
    assert(v@ =~= seq![a, b]);
    match LogicalPlan::with_new_arc_children(plan.clone(), v) {
        Ok(p) => p,
        Err(_) => {
            assert(false);
            plan.clone()
        },
    }
}

fn project_of(input: LogicalPlanRef, exprs: Vec<ExprRef>) -> (r: LogicalPlanRef)
    ensures
        *r == LogicalPlan::Project(Project { input, projection: Arc::new(exprs) }),
        pushdown_ready(*r) == pushdown_ready(*input),
        no_udf_project(*r) == no_udf_project(*input),
        plan_schema(*r) == names_of(exprs_view(exprs@)),
        !(*r is Sink),
        leaf_columns(*r) == leaf_columns(*input),
{
    Arc::new(LogicalPlan::Project(Project { input, projection: Arc::new(exprs) }))
}

/// Column references to the names of `s`, in order.
fn columns_of(s: &ColumnSet) -> (r: Vec<ExprRef>)
    ensures
        r@.len() == column_set_items(*s).len(),
        forall|i: int| 0 <= i < r@.len() ==> (*#[trigger] r@[i])@ == ExprView::Column(column_set_items(*s)[i]),
        exprs_view(r@) == column_set_items(*s).map_values(|c: Seq<char>| ExprView::Column(c)),
{
    let n = column_set_len(s);
    let mut out: Vec<ExprRef> = Vec::new();
    let mut i: usize = 0;
    while i < n
        invariant
            0 <= i <= n,
            n == column_set_items(*s).len(),
            out@.len() == i,
            forall|j: int| 0 <= j < i ==> (*#[trigger] out@[j])@ == ExprView::Column(column_set_items(*s)[j]),
        decreases n - i,
    {
        match column_set_get(s, i) {
            Some(name) => {
                out.push(resolved_col(name.clone()));
            },
            None => {
                assert(false);
            },
        }
        i = i + 1;
    }
    proof {
        lemma_exprs_view_index(out@);
        assert(exprs_view(out@) =~= column_set_items(*s).map_values(|c: Seq<char>| ExprView::Column(c)));
    }
    out
}

/// The expressions of `l` whose output name is in `names`, in order.
pub open spec fn kept_by_name(l: Seq<ExprRef>, names: Seq<Seq<char>>) -> Seq<ExprRef>
    decreases l.len(),
{
    if l.len() == 0 {
        l
    } else {
        let rest = kept_by_name(l.drop_last(), names);
        if names.contains(name_of((*l.last())@)) {
            rest.push(l.last())
        } else {
            rest
        }
    }
}

/// The expressions of `l` whose output name is in `s`, in order.
fn keep_named(l: &ExprList, s: &ColumnSet) -> (r: Vec<ExprRef>)
    ensures
        r@ == kept_by_name((**l)@, column_set_items(*s)),
        r@.len() <= (**l)@.len(),
{
    let v: &Vec<ExprRef> = &**l;
    let mut out: Vec<ExprRef> = Vec::new();
    let mut i: usize = 0;
    assert(v@.subrange(0, 0) =~= Seq::<ExprRef>::empty());
    while i < v.len()
        invariant
            0 <= i <= v.len(),
            v@ == (**l)@,
            out@ == kept_by_name(v@.subrange(0, i as int), column_set_items(*s)),
            out@.len() <= i,
        decreases v.len() - i,
    {
        assert(v@.subrange(0, i + 1).drop_last() =~= v@.subrange(0, i as int));
        if column_set_contains(s, v[i].name()) {
            out.push(v[i].clone());
        }
        i = i + 1;
    }
    assert(v@.subrange(0, v@.len() as int) =~= v@);
    out
}

/// Each expression of a list bound to its own output name.
pub open spec fn own_bindings(s: Seq<ExprView>) -> Bindings {
    s.map_values(|e: ExprView| (name_of(e), e))
}

/// `(name, expression)` pairs for the expressions of `l`.
fn bindings_of(l: &ExprList) -> (r: Vec<(String, ExprRef)>)
    ensures
        bindings_view(r@) == own_bindings(exprs_view((**l)@)),
        forall|j: int| 0 <= j < r@.len() ==> #[trigger] bindings_view(r@)[j].0 == name_of(bindings_view(r@)[j].1),
{
    let v: &Vec<ExprRef> = &**l;
    let mut out: Vec<(String, ExprRef)> = Vec::new();
    let mut i: usize = 0;
    proof {
        lemma_exprs_view_index(v@);
    }
    while i < v.len()
        invariant
            0 <= i <= v.len(),
            v@ == (**l)@,
            exprs_view(v@).len() == v@.len(),
            forall|j: int| 0 <= j < v@.len() ==> #[trigger] exprs_view(v@)[j] == (*v@[j])@,
            out@.len() == i,
            forall|j: int| 0 <= j < i ==> #[trigger] out@[j].0@ == name_of((*v@[j])@) && (*out@[j].1)@ == (*v@[j])@,
        decreases v.len() - i,
    {
        out.push((v[i].name().to_owned(), v[i].clone()));
        i = i + 1;
    }
    assert(bindings_view(out@) =~= own_bindings(exprs_view((**l)@)));
    out
}

/// A binding in which every name is the output name of its expression.
pub open spec fn names_match(m: Bindings) -> bool {
    forall|j: int| 0 <= j < m.len() ==> #[trigger] m[j].0 == name_of(m[j].1)
}

proof fn lemma_lookup_name(m: Bindings, n: Seq<char>)
    requires
        names_match(m),
    ensures
        lookup(m, n) matches Some(x) ==> name_of(x) == n,
    decreases m.len(),
{
    if m.len() > 0 {
        assert(m.last() == m[m.len() - 1]);
        lemma_lookup_name(m.drop_last(), n);
    }
}

proof fn lemma_replace_seq_index(s: Seq<ExprView>, m: Bindings)
    ensures
        replace_columns_seq(s, m).len() == s.len(),
        forall|i: int| 0 <= i < s.len() ==> #[trigger] replace_columns_seq(s, m)[i] == replace_columns(s[i], m),
    decreases s.len(),
{
    if s.len() > 0 {
        lemma_replace_seq_index(s.drop_last(), m);
    }
}

/// Replacing columns by expressions of the same names keeps the output name.
pub proof fn lemma_replace_keeps_name(e: ExprView, m: Bindings)
    requires
        names_match(m),
    ensures
        name_of(replace_columns(e, m)) == name_of(e),
    decreases e,
{
    match e {
        ExprView::Column(n) => {
            lemma_lookup_name(m, n);
        },
        ExprView::Function(_, args) | ExprView::Udf(_, args) => {
            lemma_replace_seq_index(args, m);
            if args.len() > 0 {
                lemma_replace_keeps_name(args[0], m);
            }
        },
        _ => {},
    }
}

/// Replaces columns in each expression of `l` by the bound expressions.
fn replace_in_all(l: &ExprList, m: &Vec<(String, ExprRef)>) -> (r: Vec<ExprRef>)
    requires
        names_match(bindings_view(m@)),
    ensures
        exprs_view(r@) == replace_columns_seq(exprs_view((**l)@), bindings_view(m@)),
        names_of(exprs_view(r@)) == list_names(*l),
{
    let v: &Vec<ExprRef> = &**l;
    let mut out: Vec<ExprRef> = Vec::new();
    let mut i: usize = 0;
    proof {
        lemma_exprs_view_index(v@);
    }
    assert(exprs_view(out@) =~= replace_columns_seq(exprs_view(v@.subrange(0, 0)), bindings_view(m@)));
    while i < v.len()
        invariant
            0 <= i <= v.len(),
            v@ == (**l)@,
            names_match(bindings_view(m@)),
            out@.len() == i,
            exprs_view(out@) == replace_columns_seq(exprs_view(v@.subrange(0, i as int)), bindings_view(m@)),
            forall|j: int| 0 <= j < i ==> name_of((*#[trigger] out@[j])@) == name_of((*v@[j])@),
        decreases v.len() - i,
    {
        let x = replace_columns_with_expressions(&v[i], m);
        proof {
            lemma_replace_keeps_name((*v@[i as int])@, bindings_view(m@));
            lemma_exprs_view_prefix(v@, i as int);
            lemma_replace_columns_seq_push(exprs_view(v@.subrange(0, i as int)), (*v@[i as int])@, bindings_view(m@));
            lemma_exprs_view_push(out@, x);
        }
        out.push(x);
        i = i + 1;
    }
    proof {
        lemma_exprs_view_index(out@);
        lemma_exprs_view_index(v@);
    }
    assert(v@.subrange(0, v@.len() as int) =~= v@);
    assert(names_of(exprs_view(out@)) =~= list_names(*l));
    out
}

proof fn lemma_flatten_one(s: Seq<ColumnSet>)
    ensures
        s.len() == 1 ==> flatten_sets(s) == column_set_items(s[0]),
{
    if s.len() == 1 {
        assert(s.drop_last() =~= Seq::<ColumnSet>::empty());
        assert(flatten_sets(s.drop_last()) + column_set_items(s[0]) =~= column_set_items(s[0]));
    }
}

proof fn lemma_flatten_two(s: Seq<ColumnSet>)
    ensures
        s.len() == 2 ==> flatten_sets(s) == column_set_items(s[0]) + column_set_items(s[1]),
{
    if s.len() == 2 {
        lemma_flatten_one(s.drop_last());
        assert(s.drop_last()[0] == s[0]);
    }
}

/// The union of all the sets of `a` and then of `b`, in order of first appearance.
fn union_of_sets(a: &Vec<ColumnSet>, b: &Vec<ColumnSet>) -> (r: ColumnSet)
    ensures
        column_set_items(r) == dedup(flatten_sets(a@) + flatten_sets(b@)),
{
    let mut out = column_set_new();
    let mut k: usize = 0;
    assert(a@.subrange(0, 0) =~= Seq::<ColumnSet>::empty());
    while k < a.len()
        invariant
            0 <= k <= a.len(),
            column_set_items(out) == dedup(flatten_sets(a@.subrange(0, k as int))),
        decreases a.len() - k,
    {
        assert(a@.subrange(0, k + 1).drop_last() =~= a@.subrange(0, k as int));
        proof {
            lemma_dedup_onto_concat(Seq::empty(), flatten_sets(a@.subrange(0, k as int)), column_set_items(a@[k as int]));
        }
        out = column_set_union(&out, &a[k]);
        k = k + 1;
    }
    assert(a@.subrange(0, a@.len() as int) =~= a@);
    let ghost fa = flatten_sets(a@);
    let mut k: usize = 0;
    assert(b@.subrange(0, 0) =~= Seq::<ColumnSet>::empty());
    assert(fa + flatten_sets(b@.subrange(0, 0)) =~= fa);
    while k < b.len()
        invariant
            0 <= k <= b.len(),
            fa == flatten_sets(a@),
            column_set_items(out) == dedup(fa + flatten_sets(b@.subrange(0, k as int))),
        decreases b.len() - k,
    {
        assert(b@.subrange(0, k + 1).drop_last() =~= b@.subrange(0, k as int));
        proof {
            lemma_dedup_onto_concat(
                Seq::empty(),
                fa + flatten_sets(b@.subrange(0, k as int)),
                column_set_items(b@[k as int]),
            );
            assert(fa + flatten_sets(b@.subrange(0, k + 1)) =~= fa + flatten_sets(b@.subrange(0, k as int))
                + column_set_items(b@[k as int]));
        }
        out = column_set_union(&out, &b[k]);
        k = k + 1;
    }
    assert(b@.subrange(0, b@.len() as int) =~= b@);
    out
}

fn concat_names(a: Vec<String>, b: Vec<String>) -> (r: Vec<String>)
    ensures
        strings_view(r@) == strings_view(a@) + strings_view(b@),
{
    let mut a = a;
    let mut b = b;
    let ghost a0 = a@;
    let ghost b0 = b@;
    a.append(&mut b);
    assert(strings_view(a@) =~= strings_view(a0) + strings_view(b0));
    a
}

/// The output names of the expressions of `s` that are not a bare column reference.
pub open spec fn non_column_names(s: Seq<ExprRef>) -> Seq<Seq<char>>
    decreases s.len(),
{
    if s.len() == 0 {
        Seq::empty()
    } else if (*s.last())@ is Column {
        non_column_names(s.drop_last())
    } else {
        non_column_names(s.drop_last()).push(name_of((*s.last())@))
    }
}

/// The names of the non-trivial expressions of `l`: those that are not a
/// bare column reference.
fn computed_names(l: &ExprList) -> (r: ColumnSet)
    ensures
        column_set_items(r) == dedup(non_column_names((**l)@)),
{
    let v: &Vec<ExprRef> = &**l;
    let mut names: Vec<String> = Vec::new();
    let mut i: usize = 0;
    assert(v@.subrange(0, 0) =~= Seq::<ExprRef>::empty());
    assert(strings_view(names@) =~= Seq::<Seq<char>>::empty());
    while i < v.len()
        invariant
            0 <= i <= v.len(),
            v@ == (**l)@,
            strings_view(names@) == non_column_names(v@.subrange(0, i as int)),
        decreases v.len() - i,
    {
        assert(v@.subrange(0, i + 1).drop_last() =~= v@.subrange(0, i as int));
        match &*v[i] {
            Expr::Column(_) => {},
            _ => {
                let ghost before = names@;
                names.push(v[i].name().to_owned());
                assert(strings_view(names@) =~= strings_view(before).push(name_of((*v@[i as int])@)));
            },
        }
        i = i + 1;
    }
    assert(v@.subrange(0, v@.len() as int) =~= v@);
    column_set_from(&names)
}

proof fn lemma_kept_in_concat(a: Seq<Seq<char>>, b: Seq<Seq<char>>, t: Seq<Seq<char>>)
    ensures
        kept_in(a + b, t) == kept_in(a, t) + kept_in(b, t),
    decreases b.len(),
{
    if b.len() == 0 {
        assert(a + b =~= a);
        assert(kept_in(a, t) + kept_in(b, t) =~= kept_in(a, t));
    } else {
        lemma_kept_in_concat(a, b.drop_last(), t);
        assert((a + b).drop_last() =~= a + b.drop_last());
        assert((a + b).last() == b.last());
        if t.contains(b.last()) {
            assert(kept_in(a, t) + kept_in(b.drop_last(), t).push(b.last()) =~= (kept_in(a, t) + kept_in(
                b.drop_last(),
                t,
            )).push(b.last()));
        }
    }
}

/// Whether no name of `computed` is referenced twice by the expressions of `l`.
fn computed_used_once(l: &ExprList, computed: &ColumnSet) -> (r: bool)
    ensures
        r == kept_in(column_refs_seq(exprs_view((**l)@)), column_set_items(*computed)).no_duplicates(),
{
    let v: &Vec<ExprRef> = &**l;
    let ghost cs = column_set_items(*computed);
    let ghost all = column_refs_seq(exprs_view(v@));
    let mut used = column_set_new();
    let mut i: usize = 0;
    assert(exprs_view(v@.subrange(0, 0)) =~= Seq::<ExprView>::empty());
    while i < v.len()
        invariant
            0 <= i <= v.len(),
            v@ == (**l)@,
            cs == column_set_items(*computed),
            all == column_refs_seq(exprs_view(v@)),
            column_set_items(used) == kept_in(column_refs_seq(exprs_view(v@.subrange(0, i as int))), cs),
            column_set_items(used).no_duplicates(),
        decreases v.len() - i,
    {
        let refs = get_required_columns(&v[i]);
        let ghost pre = column_refs_seq(exprs_view(v@.subrange(0, i as int)));
        let mut k: usize = 0;
        assert(pre + strings_view(refs@).subrange(0, 0) =~= pre);
        while k < refs.len()
            invariant
                0 <= k <= refs.len(),
                0 <= i < v.len(),
                v@ == (**l)@,
                cs == column_set_items(*computed),
                all == column_refs_seq(exprs_view(v@)),
                pre == column_refs_seq(exprs_view(v@.subrange(0, i as int))),
                strings_view(refs@) == column_refs((*v@[i as int])@),
                column_set_items(used) == kept_in(pre + strings_view(refs@).subrange(0, k as int), cs),
                column_set_items(used).no_duplicates(),
            decreases refs.len() - k,
        {
            let ghost p = pre + strings_view(refs@).subrange(0, k as int);
            let ghost x = refs@[k as int]@;
            assert(pre + strings_view(refs@).subrange(0, k + 1) =~= p.push(x));
            assert(p.push(x).drop_last() =~= p);
            if column_set_contains(computed, refs[k].as_str()) {
                let ghost cur = column_set_items(used);
                if !column_set_insert(&mut used, refs[k].clone()) {
                    proof {
                        let rest = strings_view(refs@).subrange(k + 1, refs@.len() as int) + column_refs_seq(
                            exprs_view(v@.subrange(i + 1, v@.len() as int)),
                        );
                        lemma_exprs_view_split(v@, i as int);
                        lemma_column_refs_seq_concat(
                            exprs_view(v@.subrange(0, i + 1)),
                            exprs_view(v@.subrange(i + 1, v@.len() as int)),
                        );
                        lemma_exprs_view_prefix_of(v@, i as int);
                        lemma_column_refs_seq_one(exprs_view(v@.subrange(0, i as int)), (*v@[i as int])@);
                        assert(strings_view(refs@) =~= strings_view(refs@).subrange(0, k as int) + seq![x]
                            + strings_view(refs@).subrange(k + 1, refs@.len() as int));
                        assert(all =~= p.push(x) + rest);
                        lemma_kept_in_concat(p.push(x), rest, cs);
                        lemma_repeat_in_prefix(cur, x, kept_in(rest, cs));
                    }
                    return false;
                }
                proof {
                    assert forall|a: int, b: int| 0 <= a < b < cur.push(x).len() implies cur.push(x)[a] != cur.push(x)[b] by {
                        if b == cur.len() {
                            assert(cur[a] == cur.push(x)[a]);
                        }
                    }
                }
            }
            k = k + 1;
        }
        proof {
            lemma_exprs_view_prefix_of(v@, i as int);
            lemma_column_refs_seq_one(exprs_view(v@.subrange(0, i as int)), (*v@[i as int])@);
            assert(strings_view(refs@).subrange(0, refs@.len() as int) =~= strings_view(refs@));
        }
        i = i + 1;
    }
    assert(v@.subrange(0, v@.len() as int) =~= v@);
    true
}

/// Whether no expression of `l` computes anything.
fn none_computes(l: &ExprList) -> (r: bool)
    ensures
        r == (forall|i: int| 0 <= i < (**l)@.len() ==> !needs_computation((*#[trigger] (**l)@[i])@)),
{
    let v: &Vec<ExprRef> = &**l;
    let mut i: usize = 0;
    while i < v.len()
        invariant
            0 <= i <= v.len(),
            v@ == (**l)@,
            forall|j: int| 0 <= j < i ==> !needs_computation((*#[trigger] v@[j])@),
        decreases v.len() - i,
    {
        if requires_computation(&v[i]) {
            return false;
        }
        i = i + 1;
    }
    true
}

proof fn lemma_column_refs_seq_concat(a: Seq<ExprView>, b: Seq<ExprView>)
    ensures
        column_refs_seq(a + b) == column_refs_seq(a) + column_refs_seq(b),
    decreases b.len(),
{
    if b.len() == 0 {
        assert(a + b =~= a);
        assert(column_refs_seq(a) + column_refs_seq(b) =~= column_refs_seq(a));
    } else {
        lemma_column_refs_seq_concat(a, b.drop_last());
        assert((a + b).drop_last() =~= a + b.drop_last());
        assert((a + b).last() == b.last());
        assert(column_refs_seq(a) + column_refs_seq(b.drop_last()) + column_refs(b.last()) =~= column_refs_seq(a) + (
        column_refs_seq(b.drop_last()) + column_refs(b.last())));
    }
}

/// A sequence with a repeat inside a prefix has a repeat.
proof fn lemma_repeat_in_prefix(p: Seq<Seq<char>>, x: Seq<char>, rest: Seq<Seq<char>>)
    requires
        p.contains(x),
    ensures
        !(p.push(x) + rest).no_duplicates(),
{
    let i = choose|i: int| 0 <= i < p.len() && p[i] == x;
    let t = p.push(x) + rest;
    assert(t[i] == x);
    assert(t[p.len() as int] == x);
}

/// Whether the columns that the expressions of `l` read are all different.
fn refs_distinct(l: &ExprList) -> (r: bool)
    ensures
        r == column_refs_seq(exprs_view((**l)@)).no_duplicates(),
{
    let v: &Vec<ExprRef> = &**l;
    let ghost all = column_refs_seq(exprs_view(v@));
    let mut seen = column_set_new();
    let mut i: usize = 0;
    assert(exprs_view(v@.subrange(0, 0)) =~= Seq::<ExprView>::empty());
    while i < v.len()
        invariant
            0 <= i <= v.len(),
            v@ == (**l)@,
            all == column_refs_seq(exprs_view(v@)),
            column_set_items(seen) == column_refs_seq(exprs_view(v@.subrange(0, i as int))),
            column_set_items(seen).no_duplicates(),
        decreases v.len() - i,
    {
        let refs = get_required_columns(&v[i]);
        let ghost pre = column_set_items(seen);
        let mut k: usize = 0;
        assert(pre + strings_view(refs@).subrange(0, 0) =~= pre);
        while k < refs.len()
            invariant
                0 <= k <= refs.len(),
                0 <= i < v.len(),
                v@ == (**l)@,
                all == column_refs_seq(exprs_view(v@)),
                pre == column_refs_seq(exprs_view(v@.subrange(0, i as int))),
                strings_view(refs@) == column_refs((*v@[i as int])@),
                column_set_items(seen) == pre + strings_view(refs@).subrange(0, k as int),
                column_set_items(seen).no_duplicates(),
            decreases refs.len() - k,
        {
            let ghost cur = column_set_items(seen);
            let inserted = column_set_insert(&mut seen, refs[k].clone());
            if !inserted {
                proof {
                    let rest = strings_view(refs@).subrange(k + 1, refs@.len() as int) + column_refs_seq(
                        exprs_view(v@.subrange(i + 1, v@.len() as int)),
                    );
                    lemma_repeat_in_prefix(cur, refs@[k as int]@, rest);
                    assert(v@ =~= v@.subrange(0, i as int) + (seq![v@[i as int]] + v@.subrange(i + 1, v@.len() as int)));
                    lemma_exprs_view_split(v@, i as int);
                    lemma_column_refs_seq_concat(
                        exprs_view(v@.subrange(0, i + 1)),
                        exprs_view(v@.subrange(i + 1, v@.len() as int)),
                    );
                    lemma_exprs_view_prefix_of(v@, i as int);
                    lemma_column_refs_seq_one(exprs_view(v@.subrange(0, i as int)), (*v@[i as int])@);
                    assert(strings_view(refs@) =~= strings_view(refs@).subrange(0, k as int) + seq![refs@[k as int]@]
                        + strings_view(refs@).subrange(k + 1, refs@.len() as int));
                    assert(all =~= cur.push(refs@[k as int]@) + rest);
                }
                return false;
            }
            k = k + 1;
            assert(strings_view(refs@).subrange(0, k as int) =~= strings_view(refs@).subrange(0, k - 1).push(
                refs@[k - 1]@,
            ));
        }
        proof {
            lemma_exprs_view_prefix_of(v@, i as int);
            lemma_column_refs_seq_one(exprs_view(v@.subrange(0, i as int)), (*v@[i as int])@);
            assert(strings_view(refs@).subrange(0, refs@.len() as int) =~= strings_view(refs@));
        }
        i = i + 1;
    }
    assert(v@.subrange(0, v@.len() as int) =~= v@);
    true
}

proof fn lemma_exprs_view_prefix_of(s: Seq<ExprRef>, i: int)
    requires
        0 <= i < s.len(),
    ensures
        exprs_view(s.subrange(0, i + 1)) == exprs_view(s.subrange(0, i)).push((*s[i])@),
{
    assert(s.subrange(0, i + 1).drop_last() =~= s.subrange(0, i));
}

proof fn lemma_column_refs_seq_one(s: Seq<ExprView>, x: ExprView)
    ensures
        column_refs_seq(s.push(x)) == column_refs_seq(s) + column_refs(x),
{
    assert(s.push(x).drop_last() =~= s);
}

proof fn lemma_exprs_view_split(s: Seq<ExprRef>, i: int)
    requires
        0 <= i < s.len(),
    ensures
        exprs_view(s) == exprs_view(s.subrange(0, i + 1)) + exprs_view(s.subrange(i + 1, s.len() as int)),
    decreases s.len() - i,
{
    lemma_exprs_view_concat(s.subrange(0, i + 1), s.subrange(i + 1, s.len() as int));
    assert(s.subrange(0, i + 1) + s.subrange(i + 1, s.len() as int) =~= s);
}

proof fn lemma_exprs_view_concat(a: Seq<ExprRef>, b: Seq<ExprRef>)
    ensures
        exprs_view(a + b) == exprs_view(a) + exprs_view(b),
    decreases b.len(),
{
    if b.len() == 0 {
        assert(a + b =~= a);
        assert(exprs_view(a) + exprs_view(b) =~= exprs_view(a));
    } else {
        lemma_exprs_view_concat(a, b.drop_last());
        assert((a + b).drop_last() =~= a + b.drop_last());
        assert((a + b).last() == b.last());
        assert(exprs_view(a) + exprs_view(b.drop_last()).push((*b.last())@) =~= (exprs_view(a) + exprs_view(b.drop_last())).push(
            (*b.last())@,
        ));
    }
}

/// The columns that one input of a join under a projection must keep: the
/// ones the join reads from it, then those of its columns the projection reads.
pub open spec fn side_columns(side: LogicalPlan, side_deps: Seq<Seq<char>>, proj_deps: Seq<Seq<char>>) -> Seq<Seq<char>> {
    dedup_onto(side_deps, kept_in(dedup(plan_schema(side)), proj_deps))
}

/// Whether one input of a join under a projection is narrowed: the columns
/// it must keep are fewer than its columns.
pub open spec fn side_prunes(side: LogicalPlan, side_deps: Seq<Seq<char>>, proj_deps: Seq<Seq<char>>) -> bool {
    side_columns(side, side_deps, proj_deps).len() < dedup(plan_schema(side)).len()
}

/// For one input of a join under a projection: a projection onto the
/// columns the join and the projection need from it, when that is fewer
/// than the input has.
fn maybe_project_upstream_input(
    side: &LogicalPlanRef,
    side_dependencies: &ColumnSet,
    projection_dependencies: &ColumnSet,
) -> (r: Transformed<LogicalPlanRef>)
    ensures
        !r.transformed ==> r.data == *side,
        r.transformed == side_prunes(**side, column_set_items(*side_dependencies), column_set_items(*projection_dependencies)),
        r.transformed ==> projects_onto(
            *r.data,
            *side,
            side_columns(**side, column_set_items(*side_dependencies), column_set_items(*projection_dependencies)),
        ),
        leaf_columns(*r.data) == leaf_columns(**side),
        pushdown_ready(**side) ==> pushdown_ready(*r.data),
        no_udf_project(**side) ==> no_udf_project(*r.data),
{
    let names = side.schema();
    let upstream_names = column_set_from(&names);
    let used_here = column_set_intersection(&upstream_names, projection_dependencies);
    let combined = column_set_union(side_dependencies, &used_here);
    if column_set_len(&combined) < column_set_len(&upstream_names) {
        Transformed::yes(project_of(side.clone(), columns_of(&combined)))
    } else {
        Transformed::no(side.clone())
    }
}

/// Rebuilding a node with inputs that keep the output names, readiness and
/// the absence of user-defined function nodes keeps them for the node too.
proof fn lemma_rebuild(p: &LogicalPlan, cs: Seq<LogicalPlanRef>)
    requires
        cs.len() == plan_children(*p).len(),
    ensures
        plan_with_children(*p, cs) is Ok,
        (forall|i: int| 0 <= i < cs.len() ==> plan_schema(*#[trigger] cs[i]) == plan_schema(*plan_children(*p)[i]))
            ==> plan_schema(*plan_with_children(*p, cs)->Ok_0) == plan_schema(*p),
        (forall|i: int| 0 <= i < cs.len() ==> pushdown_ready(*#[trigger] cs[i])) && rule_input_ok(*p) ==> rule_input_ok(
            *plan_with_children(*p, cs)->Ok_0,
        ),
        (forall|i: int| 0 <= i < cs.len() ==> pushdown_ready(*#[trigger] cs[i])) && pushdown_ready(*p) ==> pushdown_ready(
            *plan_with_children(*p, cs)->Ok_0,
        ),
        (forall|i: int| 0 <= i < cs.len() ==> no_udf_project(*#[trigger] cs[i])) && no_udf_project(*p) ==> no_udf_project(
            *plan_with_children(*p, cs)->Ok_0,
        ),
        (forall|i: int| 0 <= i < cs.len() ==> leaf_columns(*#[trigger] cs[i]).subset_of(leaf_columns(*plan_children(*p)[i])))
            ==> leaf_columns(*plan_with_children(*p, cs)->Ok_0).subset_of(leaf_columns(*p)),
{
    if cs.len() >= 1 {
        let c0 = cs[0];
    }
    if cs.len() >= 2 {
        let c1 = cs[1];
    }
}

/// The inputs of a plan the rule accepts are ready for pruning.
proof fn lemma_children_ready(p: &LogicalPlan)
    requires
        rule_input_ok(*p),
    ensures
        forall|i: int| 0 <= i < plan_children(*p).len() ==> pushdown_ready(*#[trigger] plan_children(*p)[i]),
{
}

/// Without nodes the rule looks at in a plan, there are none in its inputs.
proof fn lemma_children_no_rule_nodes(p: &LogicalPlan)
    ensures
        no_rule_nodes(*p) ==> forall|i: int| 0 <= i < plan_children(*p).len() ==> no_rule_nodes(
            *#[trigger] plan_children(*p)[i],
        ),
{
}

/// Without user-defined function nodes in a plan, there are none in its inputs.
proof fn lemma_children_no_udf(p: &LogicalPlan)
    ensures
        no_udf_project(*p) ==> forall|i: int| 0 <= i < plan_children(*p).len() ==> no_udf_project(*#[trigger] plan_children(*p)[i]),
{
}

impl PushDownProjection {
    /// The rule; it holds no state.
    pub fn new() -> (r: PushDownProjection)
        ensures
            r == (PushDownProjection {  }),
    {
        PushDownProjection {  }
    }

    /// Looks at the rewritten `new_plan` again, and reports a change in any case.
    fn reenter(&self, new_plan: LogicalPlanRef, fuel: u64) -> (r: DaftResult<Transformed<LogicalPlanRef>>)
        requires
            pushdown_ready(*new_plan),
        ensures
            r matches Ok(t) && t.transformed && t.tnr == TreeNodeRecursion::Continue && pushdown_ready(*t.data)
                && (no_udf_project(*new_plan) ==> no_udf_project(*t.data) && plan_schema(*t.data) == plan_schema(*new_plan))
                && leaf_columns(*t.data).subset_of(leaf_columns(*new_plan)),
            fuel == 0 ==> r->Ok_0.data == new_plan,
            fuel > 0 ==> rule_node_rel(new_plan, r->Ok_0.data, (fuel - 1) as nat),
        decreases fuel, 0nat,
    {
        if fuel == 0 {
            return Ok(Transformed::yes(new_plan));
        }
        let t = self.try_optimize_node_fuel(new_plan.clone(), fuel - 1);
        match t {
            Ok(t) => Ok(t.or(Transformed::yes(new_plan))),
            Err(e) => Err(e),
        }
    }

    /// Rewrites the root of `plan` by the rule, looking again at each local
    /// result while `fuel` lasts.
    fn try_optimize_node_fuel(&self, plan: LogicalPlanRef, fuel: u64) -> (r: DaftResult<Transformed<LogicalPlanRef>>)
        requires
            rule_input_ok(*plan),
        ensures
            r matches Ok(t) && walk_keeps(plan, t) && (pushdown_ready(*plan) ==> pushdown_ready(*t.data)),
            !is_rule_node(*plan) ==> !r->Ok_0.transformed,
            root_rewrite_due(*plan) ==> r->Ok_0.transformed,
            r->Ok_0.transformed == root_applies(*plan),
            rule_node_rel(plan, r->Ok_0.data, fuel as nat),
        decreases fuel, 2nat,
    {
        match &*plan {
            LogicalPlan::Project(projection) => self.try_optimize_project(projection, plan.clone(), fuel),
            LogicalPlan::UDFProject(udf_project) => self.try_optimize_udf_project(udf_project, plan.clone()),
            LogicalPlan::Aggregate(aggregation) => self.try_optimize_aggregation(aggregation, plan.clone()),
            LogicalPlan::Join(join) => self.try_optimize_join(join, plan.clone(), fuel),
            LogicalPlan::Pivot(pivot) => self.try_optimize_pivot(pivot, plan.clone()),
            _ => Ok(Transformed::no(plan)),
        }
    }

    /// Rewrites a projection by what sits below it: drops it when it selects
    /// its input unchanged, merges it into a projection below, or prunes the
    /// columns the nodes below produce or read.
    #[verifier::rlimit(100)]
    #[verifier::spinoff_prover]
    fn try_optimize_project(&self, projection: &Project, plan: LogicalPlanRef, fuel: u64) -> (r: DaftResult<
        Transformed<LogicalPlanRef>,
    >)
        requires
            *plan == LogicalPlan::Project(*projection),
            pushdown_ready(*plan),
        ensures
            r matches Ok(t) && rewrite_keeps(plan, t),
            r->Ok_0.transformed == project_applies(*plan, *projection),
            rule_node_rel(plan, r->Ok_0.data, fuel as nat),
            projection_is_noop(*projection) ==> r->Ok_0.transformed,
            !projection_is_noop(*projection) && blocks_pruning(*projection.input) ==> !r->Ok_0.transformed,
            !projection_is_noop(*projection) && (*projection.input matches LogicalPlan::Source(s) && (*s.source_info) is Physical)
                ==> r->Ok_0.transformed == (node_required(*plan)[0].len() < plan_schema(*projection.input).len()),
            !projection_is_noop(*projection) && (*projection.input matches LogicalPlan::Distinct { columns, .. } && columns is Some)
                ==> r->Ok_0.transformed,
            !projection_is_noop(*projection) && (*projection.input is UDFProject) ==> r->Ok_0.transformed
                == udf_case_rewrites(*plan, *projection),
            !projection_is_noop(*projection) && (*projection.input is Aggregate) ==> r->Ok_0.transformed
                == (kept_by_name((*aggregate_of(*projection.input).aggregations)@, node_required(*plan)[0]).len() < (
                *aggregate_of(*projection.input).aggregations)@.len()),
            !projection_is_noop(*projection) && (*projection.input is Join) ==> r->Ok_0.transformed == (side_prunes(
                *join_of(*projection.input).left,
                node_required(*projection.input)[0],
                node_required(*plan)[0],
            ) || side_prunes(*join_of(*projection.input).right, node_required(*projection.input)[1], node_required(*plan)[0])),
            !projection_is_noop(*projection) && (*projection.input is Concat) ==> r->Ok_0.transformed
                == (plan_schema(*plan_children(*projection.input)[0]).len() != dedup(node_required(*plan)[0]
                + node_required(*projection.input)[0] + node_required(*projection.input)[1]).len()),
            !projection_is_noop(*projection) && (*projection.input is Unpivot) ==> r->Ok_0.transformed == (plan_schema(
                *plan_children(*projection.input)[0],
            ).len() != kept_in(
                dedup(unpivot_input_names(*projection.input)),
                dedup(node_required(*plan)[0] + node_required(*projection.input)[0]),
            ).len()),
            !projection_is_noop(*projection) && (*projection.input is Project) ==> r->Ok_0.transformed == (kept_in(
                column_refs_seq(exprs_view((*projection.projection)@)),
                dedup(non_column_names((*project_of_plan(*projection.input).projection)@)),
            ).no_duplicates() || node_required(*plan)[0].len() < plan_schema(*projection.input).len()),
            !projection_is_noop(*projection) && passes_through(*projection.input) ==> r->Ok_0.transformed == (plan_schema(
                *plan_children(*projection.input)[0],
            ).len() != dedup(node_required(*plan)[0] + node_required(*projection.input)[0]).len()),
        decreases fuel, 1nat,
    {
        let upstream_plan = &projection.input;
        let upstream_schema = upstream_plan.schema();
        let projs: &Vec<ExprRef> = &*projection.projection;
        assert(pushdown_ready(**upstream_plan));
        assert(no_udf_project(*plan) ==> no_udf_project(**upstream_plan));
        assert(plan_schema(*plan) == list_names(projection.projection));

        // A projection that selects exactly the input columns, in order, is dropped.
        let mut is_noop = projs.len() == upstream_schema.len();
        let mut i: usize = 0;
        proof {
            lemma_exprs_view_index(projs@);
        }
        while is_noop && i < projs.len()
            invariant
                0 <= i <= projs.len(),
                projs@ == (*projection.projection)@,
                strings_view(upstream_schema@) == plan_schema(*projection.input),
                exprs_view(projs@).len() == projs@.len(),
                forall|j: int| 0 <= j < projs@.len() ==> #[trigger] exprs_view(projs@)[j] == (*projs@[j])@,
                is_noop ==> projs.len() == upstream_schema.len(),
                is_noop ==> forall|j: int| 0 <= j < i ==> (*#[trigger] projs@[j])@ == ExprView::Column(upstream_schema@[j]@),
                !is_noop ==> !projection_is_noop(*projection),
            decreases projs.len() - i,
        {
            match &*projs[i] {
                Expr::Column(n) => {
                    if !(*n == upstream_schema[i]) {
                        is_noop = false;
                        assert(exprs_view(projs@)[i as int] != ExprView::Column(plan_schema(*projection.input)[i as int]));
                    }
                },
                _ => {
                    is_noop = false;
                    assert(exprs_view(projs@)[i as int] != ExprView::Column(plan_schema(*projection.input)[i as int]));
                },
            }
            i = i + 1;
        }
        if !is_noop {
            assert(!projection_is_noop(*projection));
        }
        if is_noop {
            proof {
                assert(list_names(projection.projection) =~= strings_view(upstream_schema@));
            }
            let upstream = upstream_plan.clone();
            assert(root_step(*plan, upstream));
            return self.reenter(upstream, fuel);
        }

        // A projection below whose computed columns are each used at most
        // once here is merged into this one.
        if let LogicalPlan::Project(upstream_projection) = &**upstream_plan {
            assert(pushdown_ready(*upstream_projection.input));
            assert(no_udf_project(*plan) ==> no_udf_project(*upstream_projection.input));
            let computed = computed_names(&upstream_projection.projection);
            if computed_used_once(&projection.projection, &computed) {
                let bindings = bindings_of(&upstream_projection.projection);
                let merged = replace_in_all(&projection.projection, &bindings);
                assert(leaf_columns(*plan) == leaf_columns(**upstream_plan));
                assert(leaf_columns(**upstream_plan) == leaf_columns(*upstream_projection.input));
                let new_plan = project_of(upstream_projection.input.clone(), merged);
                assert(root_step(*plan, new_plan));
                return self.reenter(new_plan, fuel);
            }
        }

        match &**upstream_plan {
            LogicalPlan::Source(source) => {
                let required = plan.required_columns();
                match &*source.source_info {
                    SourceInfo::Physical(external_info) => {
                        if column_set_len(&required[0]) < upstream_schema.len() {
                            let fields: &Vec<Field> = &*source.output_schema;
                            let mut pruned: Vec<Field> = Vec::new();
                            let mut columns: Vec<String> = Vec::new();
                            let mut k: usize = 0;
                            while k < fields.len()
                                invariant
                                    0 <= k <= fields.len(),
                                    required@.len() == 1,
                                    forall|m: int| 0 <= m < pruned@.len() ==> field_names(fields@).contains(
                                        #[trigger] pruned@[m].name@,
                                    ),
                                    fields@ == (*source.output_schema)@,
                                    pruned@ == kept_fields(fields@.subrange(0, k as int), node_required(*plan)[0]),
                                    strings_view(columns@) == field_names(pruned@),
                                    column_set_items(required@[0]) == node_required(*plan)[0],
                                decreases fields.len() - k,
                            {
                                assert(fields@.subrange(0, k + 1).drop_last() =~= fields@.subrange(0, k as int));
                                if column_set_contains(&required[0], fields[k].name.as_str()) {
                                    let f = fields[k].duplicate();
                                    assert(field_names(fields@)[k as int] == f.name@);
                                    let ghost before_c = columns@;
                                    let ghost before_p = pruned@;
                                    pruned.push(f);
                                    columns.push(fields[k].name.clone());
                                    assert(strings_view(columns@) =~= strings_view(before_c).push(fields@[k as int].name@));
                                    assert(field_names(pruned@) =~= field_names(before_p).push(fields@[k as int].name@));
                                }
                                k = k + 1;
                            }
                            proof {
                                assert forall|x: Seq<char>| field_names(pruned@).to_set().contains(x) implies field_names(
                                    fields@,
                                ).to_set().contains(x) by {
                                    assert(field_names(pruned@).contains(x));
                                    let m = choose|m: int| 0 <= m < field_names(pruned@).len() && field_names(pruned@)[m] == x;
                                    assert(pruned@[m].name@ == x);
                                }
                            }
                            assert(fields@.subrange(0, fields@.len() as int) =~= fields@);
                            let pushdowns = external_info.pushdowns.with_columns(Some(Arc::new(columns)));
                            let info = SourceInfo::Physical(external_info.with_pushdowns(pushdowns));
                            let new_source = Arc::new(
                                LogicalPlan::Source(Source { output_schema: Arc::new(pruned), source_info: Arc::new(info) }),
                            );
                            let new_plan = with_child(&plan, new_source);
                            assert(root_step(*plan, new_plan));
                            self.reenter(new_plan, fuel)
                        } else {
                            Ok(Transformed::no(plan))
                        }
                    },
                    SourceInfo::InMemory(_) => Ok(Transformed::no(plan)),
                    SourceInfo::PlaceHolder(_) => {
                        assert(false);
                        Ok(Transformed::no(plan))
                    },
                }
            },
            LogicalPlan::Project(upstream_projection) => {
                // The merge was refused: prune the columns this projection does not use.
                let required = plan.required_columns();
                if column_set_len(&required[0]) < upstream_schema.len() {
                    let pruned = keep_named(&upstream_projection.projection, &required[0]);
                    let new_upstream = project_of(upstream_projection.input.clone(), pruned);
                    let new_plan = with_child(&plan, new_upstream);
                    assert(root_step(*plan, new_plan));
                    self.reenter(new_plan, fuel)
                } else {
                    Ok(Transformed::no(plan))
                }
            },
            LogicalPlan::Aggregate(aggregate) => {
                let required = plan.required_columns();
                let pruned = keep_named(&aggregate.aggregations, &required[0]);
                if pruned.len() < aggregate.aggregations.len() {
                    let new_upstream = Arc::new(
                        LogicalPlan::Aggregate(
                            Aggregate {
                                input: aggregate.input.clone(),
                                aggregations: Arc::new(pruned),
                                groupby: aggregate.groupby.clone(),
                            },
                        ),
                    );
                    let new_plan = with_child(&plan, new_upstream);
                    assert(root_step(*plan, new_plan));
                    self.reenter(new_plan, fuel)
                } else {
                    Ok(Transformed::no(plan))
                }
            },
            LogicalPlan::UDFProject(upstream_udf) => {
                let required = plan.required_columns();
                if !column_set_contains(&required[0], upstream_udf.project.name()) {
                    // The function column is not used: keep only the passed-through columns.
                    let new_upstream = Arc::new(
                        LogicalPlan::Project(
                            Project { input: upstream_udf.input.clone(), projection: upstream_udf.passthrough_columns.clone() },
                        ),
                    );
                    let new_plan = with_child(&plan, new_upstream);
                    assert(root_step(*plan, new_plan));
                return self.reenter(new_plan, fuel);
                }
                if none_computes(&projection.projection) && refs_distinct(&projection.projection) {
                    // Fold this projection into the function node.
                    let mut bindings = bindings_of(&upstream_udf.passthrough_columns);
                    let ghost before = bindings@;
                    let udf_name = upstream_udf.project.name().to_owned();
                    assert(udf_name@ == name_of((*upstream_udf.project)@));
                    bindings.push((udf_name, upstream_udf.project.clone()));
                    proof {
                        assert forall|j: int| 0 <= j < bindings@.len() implies #[trigger] bindings_view(bindings@)[j].0
                            == name_of(bindings_view(bindings@)[j].1) by {
                            if j < before.len() {
                                assert(bindings@[j] == before[j]);
                                assert(bindings_view(before)[j].0 == name_of(bindings_view(before)[j].1));
                            }
                        }
                    }
                    assert(bindings_view(bindings@) =~= own_bindings(exprs_view((*upstream_udf.passthrough_columns)@)).push(
                        (name_of((*upstream_udf.project)@), (*upstream_udf.project)@),
                    ));
                    let merged = replace_in_all(&projection.projection, &bindings);
                    let mut udfs: Vec<ExprRef> = Vec::new();
                    let mut others: Vec<ExprRef> = Vec::new();
                    let mut k: usize = 0;
                    assert(exprs_view(merged@.subrange(0, 0)) =~= Seq::<ExprView>::empty());
                    assert(exprs_view(udfs@) =~= Seq::<ExprView>::empty());
                    assert(exprs_view(others@) =~= Seq::<ExprView>::empty());
                    while k < merged.len()
                        invariant
                            0 <= k <= merged.len(),
                            exprs_view(udfs@) == with_udf(exprs_view(merged@.subrange(0, k as int))),
                            exprs_view(others@) == without_udf(exprs_view(merged@.subrange(0, k as int))),
                        decreases merged.len() - k,
                    {
                        proof {
                            lemma_exprs_view_prefix(merged@, k as int);
                            assert(exprs_view(merged@.subrange(0, k + 1)).drop_last() =~= exprs_view(merged@.subrange(0, k as int)));
                            lemma_exprs_view_push(udfs@, merged@[k as int]);
                            lemma_exprs_view_push(others@, merged@[k as int]);
                        }
                        if contains_udf_call(&merged[k]) {
                            udfs.push(merged[k].clone());
                        } else {
                            others.push(merged[k].clone());
                        }
                        k = k + 1;
                    }
                    assert(merged@.subrange(0, merged@.len() as int) =~= merged@);
                    proof {
                        lemma_exprs_view_index(udfs@);
                    }
                    assert(leaf_columns(*plan) == leaf_columns(**upstream_plan));
                    assert(leaf_columns(**upstream_plan) == leaf_columns(*upstream_udf.input));
                    let new_plan = if udfs.len() > 0 {
                        Arc::new(
                            LogicalPlan::UDFProject(
                                UDFProject {
                                    input: upstream_udf.input.clone(),
                                    project: udfs[0].clone(),
                                    passthrough_columns: Arc::new(others),
                                },
                            ),
                        )
                    } else {
                        project_of(upstream_udf.input.clone(), merged)
                    };
                    assert(root_step(*plan, new_plan));
                return self.reenter(new_plan, fuel);
                }
                if column_set_len(&required[0]) < upstream_schema.len() {
                    let pruned = keep_named(&upstream_udf.passthrough_columns, &required[0]);
                    let new_upstream = Arc::new(
                        LogicalPlan::UDFProject(
                            UDFProject {
                                input: upstream_udf.input.clone(),
                                project: upstream_udf.project.clone(),
                                passthrough_columns: Arc::new(pruned),
                            },
                        ),
                    );
                    let new_plan = with_child(&plan, new_upstream);
                    assert(root_step(*plan, new_plan));
                    self.reenter(new_plan, fuel)
                } else {
                    Ok(Transformed::no(plan))
                }
            },
            LogicalPlan::Sort { .. } | LogicalPlan::Shard { .. } | LogicalPlan::Repartition { .. }
            | LogicalPlan::Limit { .. } | LogicalPlan::TopN { .. } | LogicalPlan::Filter { .. }
            | LogicalPlan::Sample { .. } | LogicalPlan::Explode { .. } => {
                let plan_required = plan.required_columns();
                let upstream_required = upstream_plan.required_columns();
                proof {
                    lemma_flatten_one(plan_required@);
                    lemma_flatten_one(upstream_required@);
                }
                let combined = union_of_sets(&plan_required, &upstream_required);
                let children = upstream_plan.arc_children();
                let grand_upstream = &children[0];
                if grand_upstream.schema().len() == column_set_len(&combined) {
                    return Ok(Transformed::no(plan));
                }
                let sub = project_of(grand_upstream.clone(), columns_of(&combined));
                let new_upstream = with_child(upstream_plan, sub);
                let new_plan = with_child(&plan, new_upstream);
                assert(root_step(*plan, new_plan));
                self.reenter(new_plan, fuel)
            },
            LogicalPlan::Unpivot { ids, values, .. } => {
                let plan_required = plan.required_columns();
                let upstream_required = upstream_plan.required_columns();
                proof {
                    lemma_flatten_one(plan_required@);
                    lemma_flatten_one(upstream_required@);
                }
                let combined = union_of_sets(&plan_required, &upstream_required);
                let children = upstream_plan.arc_children();
                let grand_upstream = &children[0];
                let id_names = crate::plan::list_names_exec(ids);
                let value_names = crate::plan::list_names_exec(values);
                let all_names = concat_names(id_names, value_names);
                let input_columns = column_set_from(&all_names);
                let pushed = column_set_intersection(&input_columns, &combined);
                let can_be_pushed_down = columns_of(&pushed);
                if grand_upstream.schema().len() == can_be_pushed_down.len() {
                    return Ok(Transformed::no(plan));
                }
                let sub = project_of(grand_upstream.clone(), can_be_pushed_down);
                let new_upstream = with_child(upstream_plan, sub);
                let new_plan = with_child(&plan, new_upstream);
                assert(root_step(*plan, new_plan));
                self.reenter(new_plan, fuel)
            },
            LogicalPlan::Concat { input, other } => {
                let plan_required = plan.required_columns();
                let upstream_required = upstream_plan.required_columns();
                proof {
                    lemma_flatten_one(plan_required@);
                    lemma_flatten_two(upstream_required@);
                    assert(node_required(*plan)[0] + (node_required(**upstream_plan)[0] + node_required(**upstream_plan)[1])
                        =~= node_required(*plan)[0] + node_required(**upstream_plan)[0] + node_required(**upstream_plan)[1]);
                }
                let combined = union_of_sets(&plan_required, &upstream_required);
                if input.schema().len() == column_set_len(&combined) {
                    return Ok(Transformed::no(plan));
                }
                let left = project_of(input.clone(), columns_of(&combined));
                let right = project_of(other.clone(), columns_of(&combined));
                let new_upstream = with_two_children(upstream_plan, left, right);
                let new_plan = with_child(&plan, new_upstream);
                assert(root_step(*plan, new_plan));
                self.reenter(new_plan, fuel)
            },
            LogicalPlan::Join(join) => {
                let projection_required = plan.required_columns();
                let join_required = upstream_plan.required_columns();
                let new_left = maybe_project_upstream_input(&join.left, &join_required[0], &projection_required[0]);
                let new_right = maybe_project_upstream_input(&join.right, &join_required[1], &projection_required[0]);
                if !new_left.transformed && !new_right.transformed {
                    Ok(Transformed::no(plan))
                } else {
                    let new_join = with_two_children(upstream_plan, new_left.data, new_right.data);
                    let new_plan = with_child(&plan, new_join);
                    assert(root_step(*plan, new_plan));
                    self.reenter(new_plan, fuel)
                }
            },
            LogicalPlan::Distinct { input, columns } => {
                if columns.is_none() {
                    // A distinct over all columns needs all of them.
                    return Ok(Transformed::no(plan));
                }
                let plan_required = plan.required_columns();
                let upstream_required = upstream_plan.required_columns();
                proof {
                    lemma_flatten_one(plan_required@);
                    lemma_flatten_one(upstream_required@);
                }
                let combined = union_of_sets(&plan_required, &upstream_required);
                let extra = project_of(input.clone(), columns_of(&combined));
                let new_distinct = with_child(upstream_plan, extra);
                let new_plan = with_child(&plan, new_distinct);
                assert(root_step(*plan, new_plan));
                Ok(Transformed::yes(new_plan))
            },
            LogicalPlan::Intersect { .. } | LogicalPlan::Pivot(_) | LogicalPlan::MonotonicallyIncreasingId { .. }
            | LogicalPlan::Window { .. } => {
                // These need every column of their input.
                Ok(Transformed::no(plan))
            },
            LogicalPlan::Sink { .. } | LogicalPlan::Union { .. } | LogicalPlan::SubqueryAlias { .. } => {
                assert(false);
                Ok(Transformed::no(plan))
            },
        }
    }

    /// Applies the rule top-down: first to `plan` itself, then to each input
    /// of the result. A node is rebuilt only when one of its inputs changed.
    /// This is the schedule of `transform_down` for a rewrite that always
    /// continues. It is written out here because `transform_down` needs a
    /// callback whose result is one fixed value per argument, while the rule's
    /// result is fixed by `rule_node_rel` only up to which list values hold
    /// the expressions, and two lists with the same contents cannot be shown
    /// to be the same value.
    fn optimize_down(&self, plan: LogicalPlanRef, depth: u64) -> (r: DaftResult<Transformed<LogicalPlanRef>>)
        requires
            rule_input_ok(*plan),
        ensures
            r matches Ok(t) && walk_keeps(plan, t) && (pushdown_ready(*plan) ==> pushdown_ready(*t.data)),
            no_rule_nodes(*plan) ==> !r->Ok_0.transformed,
            depth > 0 && root_rewrite_due(*plan) ==> r->Ok_0.transformed,
            walk_rel(plan, r->Ok_0.data, depth as nat),
        decreases depth,
    {
        if depth == 0 {
            return Ok(Transformed::no(plan));
        }
        let t = match self.try_optimize_node_fuel(plan.clone(), DEPTH_LIMIT) {
            Ok(t) => t,
            Err(e) => return Err(e),
        };
        let node = t.data;
        assert(rule_node_rel(plan, node, DEPTH_LIMIT as nat));
        let children = node.arc_children();
        if children.len() == 0 {
            return Ok(Transformed::new(node, t.transformed, TreeNodeRecursion::Continue));
        }
        proof {
            lemma_children_ready(&*node);
            lemma_children_no_udf(&*node);
            lemma_children_no_rule_nodes(&*node);
        }
        let mut new_children: Vec<LogicalPlanRef> = Vec::new();
        let mut changed = false;
        let mut i: usize = 0;
        while i < children.len()
            invariant
                0 <= i <= children.len(),
                depth > 0,
                children@ == plan_children(*node),
                new_children@.len() == i,
                forall|j: int| 0 <= j < children@.len() ==> pushdown_ready(*#[trigger] children@[j]),
                no_udf_project(*plan) ==> forall|j: int| 0 <= j < children@.len() ==> no_udf_project(*#[trigger] children@[j]),
                forall|j: int| 0 <= j < i ==> pushdown_ready(*#[trigger] new_children@[j]),
                no_udf_project(*plan) ==> forall|j: int| 0 <= j < i ==> no_udf_project(*#[trigger] new_children@[j])
                    && plan_schema(*new_children@[j]) == plan_schema(*children@[j]),
                forall|j: int| 0 <= j < i ==> leaf_columns(*#[trigger] new_children@[j]).subset_of(leaf_columns(*children@[j])),
                no_rule_nodes(*plan) ==> *node == *plan && !changed && forall|j: int|
                    0 <= j < children@.len() ==> no_rule_nodes(*#[trigger] children@[j]),
                !changed ==> forall|j: int| 0 <= j < i ==> #[trigger] new_children@[j] == children@[j],
                rule_node_rel(plan, node, DEPTH_LIMIT as nat),
                forall|j: int| 0 <= j < i ==> walk_rel(children@[j], #[trigger] new_children@[j], (depth - 1) as nat),
            decreases children.len() - i,
        {
            let c = match self.optimize_down(children[i].clone(), depth - 1) {
                Ok(c) => c,
                Err(e) => return Err(e),
            };
            changed = changed || c.transformed;
            new_children.push(c.data);
            i = i + 1;
        }
        if changed {
            proof {
                lemma_rebuild(&*node, new_children@);
            }
            let ghost ncs = new_children@;
            match LogicalPlan::with_new_arc_children(node, new_children) {
                Ok(rebuilt) => {
                    assert(plan_with_children(*node, ncs) == Ok::<LogicalPlanRef, crate::error::DaftError>(rebuilt));
                    Ok(Transformed::new(rebuilt, true, TreeNodeRecursion::Continue))
                },
                Err(e) => Err(e),
            }
        } else {
            assert(new_children@ =~= children@);
            assert(plan_with_children(*node, new_children@) == Ok::<LogicalPlanRef, crate::error::DaftError>(node));
            Ok(Transformed::new(node, t.transformed, TreeNodeRecursion::Continue))
        }
    }

    /// Applies the rule to the whole plan, top-down, looking again at each
    /// node after a local rewrite. Without user-defined function nodes the
    /// output column names stay the same, in the same order; an unchanged
    /// result is the input itself.
    pub fn try_optimize(&self, plan: LogicalPlanRef) -> (r: DaftResult<Transformed<LogicalPlanRef>>)
        requires
            rule_input_ok(*plan),
        ensures
            r matches Ok(t) && walk_keeps(plan, t),
            no_rule_nodes(*plan) ==> !r->Ok_0.transformed,
            root_rewrite_due(*plan) ==> r->Ok_0.transformed,
            walk_rel(plan, r->Ok_0.data, DEPTH_LIMIT as nat),
    {
        self.optimize_down(plan, DEPTH_LIMIT)
    }

    /// Inserts a projection below a user-defined function node that reads
    /// fewer columns than its input has.
    fn try_optimize_udf_project(&self, udf_project: &UDFProject, plan: LogicalPlanRef) -> (r: DaftResult<
        Transformed<LogicalPlanRef>,
    >)
        requires
            *plan == LogicalPlan::UDFProject(*udf_project),
            pushdown_ready(*plan),
        ensures
            r matches Ok(t) && rewrite_keeps(plan, t) && t.transformed == (node_required(*plan)[0].len() < plan_schema(
                *udf_project.input,
            ).len()) && (t.transformed ==> udf_project_pruned(*udf_project, *t.data, node_required(*plan)[0])),
            root_applies(*plan) ==> root_step(*plan, r->Ok_0.data),
    {
        let upstream_schema = udf_project.input.schema();
        let required = plan.required_columns();
        if column_set_len(&required[0]) < upstream_schema.len() {
            let sub = project_of(udf_project.input.clone(), columns_of(&required[0]));
            Ok(Transformed::yes(with_child(&plan, sub)))
        } else {
            Ok(Transformed::no(plan))
        }
    }

    /// Inserts a projection below an aggregation that reads fewer columns
    /// than its input has.
    fn try_optimize_aggregation(&self, aggregation: &Aggregate, plan: LogicalPlanRef) -> (r: DaftResult<
        Transformed<LogicalPlanRef>,
    >)
        requires
            *plan == LogicalPlan::Aggregate(*aggregation),
            pushdown_ready(*plan),
        ensures
            r matches Ok(t) && rewrite_keeps(plan, t) && t.transformed == (node_required(*plan)[0].len() < plan_schema(
                *aggregation.input,
            ).len()) && (t.transformed ==> aggregate_pruned(*aggregation, *t.data, node_required(*plan)[0])),
            root_applies(*plan) ==> root_step(*plan, r->Ok_0.data),
    {
        let upstream_schema = aggregation.input.schema();
        let required = plan.required_columns();
        if column_set_len(&required[0]) < upstream_schema.len() {
            let sub = project_of(aggregation.input.clone(), columns_of(&required[0]));
            Ok(Transformed::yes(with_child(&plan, sub)))
        } else {
            Ok(Transformed::no(plan))
        }
    }

    /// Inserts a projection below a pivot that reads fewer columns than its
    /// input has.
    fn try_optimize_pivot(&self, pivot: &Pivot, plan: LogicalPlanRef) -> (r: DaftResult<Transformed<LogicalPlanRef>>)
        requires
            *plan == LogicalPlan::Pivot(*pivot),
            pushdown_ready(*plan),
        ensures
            r matches Ok(t) && rewrite_keeps(plan, t) && t.transformed == (node_required(*plan)[0].len() < plan_schema(
                *pivot.input,
            ).len()) && (t.transformed ==> pivot_pruned(*pivot, *t.data, node_required(*plan)[0])),
            root_applies(*plan) ==> root_step(*plan, r->Ok_0.data),
    {
        let upstream_schema = pivot.input.schema();
        let required = plan.required_columns();
        if column_set_len(&required[0]) < upstream_schema.len() {
            let sub = project_of(pivot.input.clone(), columns_of(&required[0]));
            Ok(Transformed::yes(with_child(&plan, sub)))
        } else {
            Ok(Transformed::no(plan))
        }
    }

    /// For a semi or anti join, inserts a projection on the right input when
    /// the join reads fewer of its columns than it has; the left input's
    /// columns all reach the output.
    fn try_optimize_join(&self, join: &Join, plan: LogicalPlanRef, fuel: u64) -> (r: DaftResult<
        Transformed<LogicalPlanRef>,
    >)
        requires
            *plan == LogicalPlan::Join(*join),
            pushdown_ready(*plan),
        ensures
            r matches Ok(t) && rewrite_keeps(plan, t) && t.transformed == ((join.join_type == JoinType::Semi
                || join.join_type == JoinType::Anti) && node_required(*plan)[1].len() < plan_schema(*join.right).len()),
            rule_node_rel(plan, r->Ok_0.data, fuel as nat),
        decreases fuel, 1nat,
    {
        if join.join_type == JoinType::Anti || join.join_type == JoinType::Semi {
            let required = plan.required_columns();
            let right_schema = join.right.schema();
            if column_set_len(&required[1]) < right_schema.len() {
                let sub = project_of(join.right.clone(), columns_of(&required[1]));
                let new_join = with_two_children(&plan, join.left.clone(), sub);
                assert(root_step(*plan, new_join));
                self.reenter(new_join, fuel)
            } else {
                Ok(Transformed::no(plan))
            }
        } else {
            Ok(Transformed::no(plan))
        }
    }
}

} // verus!
