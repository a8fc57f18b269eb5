//! Logical query plans: trees of relational operators.
use std::sync::Arc;
use vstd::prelude::*;

use crate::colset::{column_set_from, column_set_items, dedup, ColumnSet};
use crate::error::{DaftError, DaftResult};
use crate::expr::{
    column_refs, column_refs_seq, exprs_view, get_required_columns, lemma_exprs_view_index, name_of, names_of,
    required_columns_all, strings_view, ExprRef,
};
use crate::schema::{field_names, Field};
use crate::treenode::DynTreeNode;

verus! {

/// A shared plan node.
pub type LogicalPlanRef = Arc<LogicalPlan>;

/// A shared list of expressions.
pub type ExprList = Arc<Vec<ExprRef>>;

/// A shared list of columns.
pub type SchemaRef = Arc<Vec<Field>>;

/// What a scan is asked to do beyond reading rows.
#[derive(Debug, PartialEq, Eq)]
pub struct Pushdowns {
    /// The columns to read, in schema order; all of them when `None`.
    pub columns: Option<Arc<Vec<String>>>,
    pub filters: Option<ExprRef>,
    pub partition_filters: Option<ExprRef>,
    pub limit: Option<usize>,
}

impl Pushdowns {
    /// No pushdown at all.
    pub fn new() -> (r: Pushdowns)
        ensures
            r.columns is None,
            r.filters is None,
            r.partition_filters is None,
            r.limit is None,
    {
        Pushdowns { columns: None, filters: None, partition_filters: None, limit: None }
    }

    /// The same pushdowns reading `columns`.
    pub fn with_columns(&self, columns: Option<Arc<Vec<String>>>) -> (r: Pushdowns)
        ensures
            r.columns == columns,
            r.filters == self.filters,
            r.partition_filters == self.partition_filters,
            r.limit == self.limit,
    {
        Pushdowns {
            columns,
            filters: share_expr(&self.filters),
            partition_filters: share_expr(&self.partition_filters),
            limit: self.limit,
        }
    }
}

fn share_expr(e: &Option<ExprRef>) -> (r: Option<ExprRef>)
    ensures
        r == *e,
{
    match e {
        Some(x) => Some(x.clone()),
        None => None,
    }
}

/// A scan of external data.
#[derive(Debug, PartialEq, Eq)]
pub struct PhysicalScanInfo {
    pub source_schema: SchemaRef,
    pub pushdowns: Pushdowns,
}

impl PhysicalScanInfo {
    /// The same scan with `pushdowns`.
    pub fn with_pushdowns(&self, pushdowns: Pushdowns) -> (r: PhysicalScanInfo)
        ensures
            r.source_schema == self.source_schema,
            r.pushdowns == pushdowns,
    {
        PhysicalScanInfo { source_schema: self.source_schema.clone(), pushdowns }
    }
}

/// Data already held in memory.
#[derive(Debug, PartialEq, Eq)]
pub struct InMemoryInfo {
    pub source_schema: SchemaRef,
    pub cache_key: String,
    pub num_partitions: usize,
    pub size_bytes: usize,
    pub num_rows: usize,
}

impl InMemoryInfo {
    /// In-memory data under `cache_key`, with its size figures.
    pub fn new(
        source_schema: SchemaRef,
        cache_key: String,
        num_partitions: usize,
        size_bytes: usize,
        num_rows: usize,
    ) -> (r: InMemoryInfo)
        ensures
            r.source_schema == source_schema,
            r.cache_key == cache_key,
            r.num_partitions == num_partitions,
            r.size_bytes == size_bytes,
            r.num_rows == num_rows,
    {
        InMemoryInfo { source_schema, cache_key, num_partitions, size_bytes, num_rows }
    }
}

/// A source whose data is bound later; identified by `source_id`.
#[derive(Debug, PartialEq, Eq)]
pub struct PlaceHolderInfo {
    pub source_schema: SchemaRef,
    pub source_id: usize,
}

impl PlaceHolderInfo {
    /// A placeholder with the id `source_id`, which the caller draws from a
    /// counter of its own.
    pub fn new(source_schema: SchemaRef, source_id: usize) -> (r: PlaceHolderInfo)
        ensures
            r.source_schema == source_schema,
            r.source_id == source_id,
    {
        PlaceHolderInfo { source_schema, source_id }
    }
}

/// Where the rows of a source come from.
#[derive(Debug, PartialEq, Eq)]
pub enum SourceInfo {
    InMemory(InMemoryInfo),
    Physical(PhysicalScanInfo),
    PlaceHolder(PlaceHolderInfo),
}

/// How the rows of two inputs are matched.
#[derive(Debug, Clone, Copy, PartialEq, Eq, Structural)]
pub enum JoinType {
    Inner,
    Left,
    Right,
    Outer,
    Semi,
    Anti,
}

/// A leaf: rows read from somewhere.
#[derive(Debug, PartialEq, Eq)]
pub struct Source {
    pub output_schema: SchemaRef,
    pub source_info: Arc<SourceInfo>,
}

/// Computes a list of expressions over each input row.
#[derive(Debug, PartialEq, Eq)]
pub struct Project {
    pub input: LogicalPlanRef,
    pub projection: ExprList,
}

/// Computes one user-defined function column and passes other columns through.
#[derive(Debug, PartialEq, Eq)]
pub struct UDFProject {
    pub input: LogicalPlanRef,
    pub project: ExprRef,
    pub passthrough_columns: ExprList,
}

/// Groups rows and computes aggregations per group.
#[derive(Debug, PartialEq, Eq)]
pub struct Aggregate {
    pub input: LogicalPlanRef,
    pub aggregations: ExprList,
    pub groupby: ExprList,
}

/// Matches rows of two inputs on keys.
#[derive(Debug, PartialEq, Eq)]
pub struct Join {
    pub left: LogicalPlanRef,
    pub right: LogicalPlanRef,
    pub left_on: ExprList,
    pub right_on: ExprList,
    pub join_type: JoinType,
}

/// Turns the values of one column into columns.
#[derive(Debug, PartialEq, Eq)]
pub struct Pivot {
    pub input: LogicalPlanRef,
    pub group_by: ExprList,
    pub pivot_column: ExprRef,
    pub value_column: ExprRef,
    pub names: Arc<Vec<String>>,
}

/// A relational operator and its inputs.
#[derive(Debug, PartialEq, Eq)]
pub enum LogicalPlan {
    Source(Source),
    Project(Project),
    UDFProject(UDFProject),
    Aggregate(Aggregate),
    Filter { input: LogicalPlanRef, predicate: ExprRef },
    Sort { input: LogicalPlanRef, sort_by: ExprList },
    Limit { input: LogicalPlanRef, limit: u64 },
    TopN { input: LogicalPlanRef, sort_by: ExprList, limit: u64 },
    /// Keeps about `per_million` rows out of each million.
    Sample { input: LogicalPlanRef, per_million: u64, with_replacement: bool },
    Explode { input: LogicalPlanRef, to_explode: ExprList },
    Repartition { input: LogicalPlanRef, by: ExprList, num_partitions: Option<usize> },
    Shard { input: LogicalPlanRef, world_size: usize, rank: usize },
    Unpivot { input: LogicalPlanRef, ids: ExprList, values: ExprList, variable_name: String, value_name: String },
    Concat { input: LogicalPlanRef, other: LogicalPlanRef },
    Join(Join),
    Distinct { input: LogicalPlanRef, columns: Option<ExprList> },
    Pivot(Pivot),
    Window { input: LogicalPlanRef, window_functions: ExprList },
    MonotonicallyIncreasingId { input: LogicalPlanRef, column_name: String },
    Intersect { lhs: LogicalPlanRef, rhs: LogicalPlanRef },
    Sink { input: LogicalPlanRef },
    Union { lhs: LogicalPlanRef, rhs: LogicalPlanRef },
    SubqueryAlias { input: LogicalPlanRef, name: String },
}

/// The output names of a list of expressions.
pub open spec fn list_names(l: ExprList) -> Seq<Seq<char>> {
    names_of(exprs_view((*l)@))
}

/// The columns a list of expressions reads, in order, with repeats.
pub open spec fn list_refs(l: ExprList) -> Seq<Seq<char>> {
    column_refs_seq(exprs_view((*l)@))
}

/// The output column names of a plan, in order.
pub open spec fn plan_schema(p: LogicalPlan) -> Seq<Seq<char>>
    decreases p,
{
    match p {
        LogicalPlan::Source(s) => field_names((*s.output_schema)@),
        LogicalPlan::Project(x) => list_names(x.projection),
        LogicalPlan::UDFProject(x) => list_names(x.passthrough_columns).push(name_of((*x.project)@)),
        LogicalPlan::Aggregate(x) => list_names(x.groupby) + list_names(x.aggregations),
        LogicalPlan::Filter { input, .. } | LogicalPlan::Sort { input, .. } | LogicalPlan::Limit { input, .. }
        | LogicalPlan::TopN { input, .. } | LogicalPlan::Sample { input, .. } | LogicalPlan::Explode { input, .. }
        | LogicalPlan::Repartition { input, .. } | LogicalPlan::Shard { input, .. } | LogicalPlan::Concat { input, .. }
        | LogicalPlan::Distinct { input, .. } | LogicalPlan::Sink { input } | LogicalPlan::SubqueryAlias { input, .. } =>
            plan_schema(*input),
        LogicalPlan::Unpivot { ids, variable_name, value_name, .. } => list_names(ids).push(variable_name@).push(value_name@),
        LogicalPlan::Join(j) => if j.join_type == JoinType::Semi || j.join_type == JoinType::Anti {
            plan_schema(*j.left)
        } else {
            plan_schema(*j.left) + plan_schema(*j.right)
        },
        LogicalPlan::Pivot(x) => list_names(x.group_by) + strings_view((*x.names)@),
        LogicalPlan::Window { input, window_functions } => plan_schema(*input) + list_names(window_functions),
        LogicalPlan::MonotonicallyIncreasingId { input, column_name } => plan_schema(*input).push(column_name@),
        LogicalPlan::Intersect { lhs, .. } | LogicalPlan::Union { lhs, .. } => plan_schema(*lhs),
    }
}

/// The names of the columns read at the leaves of a plan.
pub open spec fn leaf_columns(p: LogicalPlan) -> Set<Seq<char>>
    decreases p,
{
    match p {
        LogicalPlan::Source(s) => field_names((*s.output_schema)@).to_set(),
        LogicalPlan::Project(x) => leaf_columns(*x.input),
        LogicalPlan::UDFProject(x) => leaf_columns(*x.input),
        LogicalPlan::Aggregate(x) => leaf_columns(*x.input),
        LogicalPlan::Pivot(x) => leaf_columns(*x.input),
        LogicalPlan::Join(j) => leaf_columns(*j.left).union(leaf_columns(*j.right)),
        LogicalPlan::Concat { input, other } => leaf_columns(*input).union(leaf_columns(*other)),
        LogicalPlan::Intersect { lhs, rhs } | LogicalPlan::Union { lhs, rhs } => leaf_columns(*lhs).union(
            leaf_columns(*rhs),
        ),
        LogicalPlan::Filter { input, .. } | LogicalPlan::Sort { input, .. } | LogicalPlan::Limit { input, .. }
        | LogicalPlan::TopN { input, .. } | LogicalPlan::Sample { input, .. } | LogicalPlan::Explode { input, .. }
        | LogicalPlan::Repartition { input, .. } | LogicalPlan::Shard { input, .. } | LogicalPlan::Unpivot { input, .. }
        | LogicalPlan::Distinct { input, .. } | LogicalPlan::Window { input, .. }
        | LogicalPlan::MonotonicallyIncreasingId { input, .. } | LogicalPlan::Sink { input }
        | LogicalPlan::SubqueryAlias { input, .. } => leaf_columns(*input),
    }
}

/// The inputs of a plan node, in order.
pub open spec fn plan_children(p: LogicalPlan) -> Seq<LogicalPlanRef> {
    match p {
        LogicalPlan::Source(_) => Seq::empty(),
        LogicalPlan::Project(x) => seq![x.input],
        LogicalPlan::UDFProject(x) => seq![x.input],
        LogicalPlan::Aggregate(x) => seq![x.input],
        LogicalPlan::Pivot(x) => seq![x.input],
        LogicalPlan::Join(j) => seq![j.left, j.right],
        LogicalPlan::Concat { input, other } => seq![input, other],
        LogicalPlan::Intersect { lhs, rhs } | LogicalPlan::Union { lhs, rhs } => seq![lhs, rhs],
        LogicalPlan::Filter { input, .. } | LogicalPlan::Sort { input, .. } | LogicalPlan::Limit { input, .. }
        | LogicalPlan::TopN { input, .. } | LogicalPlan::Sample { input, .. } | LogicalPlan::Explode { input, .. }
        | LogicalPlan::Repartition { input, .. } | LogicalPlan::Shard { input, .. } | LogicalPlan::Unpivot { input, .. }
        | LogicalPlan::Distinct { input, .. } | LogicalPlan::Window { input, .. }
        | LogicalPlan::MonotonicallyIncreasingId { input, .. } | LogicalPlan::Sink { input }
        | LogicalPlan::SubqueryAlias { input, .. } => seq![input],
    }
}

/// The number of nodes of a plan.
pub open spec fn plan_size(p: LogicalPlan) -> nat
    decreases p,
{
    match p {
        LogicalPlan::Source(_) => 1,
        LogicalPlan::Project(x) => 1 + plan_size(*x.input),
        LogicalPlan::UDFProject(x) => 1 + plan_size(*x.input),
        LogicalPlan::Aggregate(x) => 1 + plan_size(*x.input),
        LogicalPlan::Pivot(x) => 1 + plan_size(*x.input),
        LogicalPlan::Join(j) => 1 + plan_size(*j.left) + plan_size(*j.right),
        LogicalPlan::Concat { input, other } => 1 + plan_size(*input) + plan_size(*other),
        LogicalPlan::Intersect { lhs, rhs } | LogicalPlan::Union { lhs, rhs } => 1 + plan_size(*lhs) + plan_size(*rhs),
        LogicalPlan::Filter { input, .. } | LogicalPlan::Sort { input, .. } | LogicalPlan::Limit { input, .. }
        | LogicalPlan::TopN { input, .. } | LogicalPlan::Sample { input, .. } | LogicalPlan::Explode { input, .. }
        | LogicalPlan::Repartition { input, .. } | LogicalPlan::Shard { input, .. } | LogicalPlan::Unpivot { input, .. }
        | LogicalPlan::Distinct { input, .. } | LogicalPlan::Window { input, .. }
        | LogicalPlan::MonotonicallyIncreasingId { input, .. } | LogicalPlan::Sink { input }
        | LogicalPlan::SubqueryAlias { input, .. } => 1 + plan_size(*input),
    }
}

/// The node `p` with its inputs replaced by `cs`, which must be as many.
pub open spec fn plan_with_children(p: LogicalPlan, cs: Seq<LogicalPlanRef>) -> DaftResult<LogicalPlanRef> {
    let n = plan_children(p).len();
    if cs.len() != n {
        Err(DaftError::WrongChildCount { expected: n as usize, found: cs.len() as usize })
    } else {
        Ok(Arc::new(match p {
            LogicalPlan::Source(s) => LogicalPlan::Source(s),
            LogicalPlan::Project(x) => LogicalPlan::Project(Project { input: cs[0], projection: x.projection }),
            LogicalPlan::UDFProject(x) => LogicalPlan::UDFProject(
                UDFProject { input: cs[0], project: x.project, passthrough_columns: x.passthrough_columns },
            ),
            LogicalPlan::Aggregate(x) => LogicalPlan::Aggregate(
                Aggregate { input: cs[0], aggregations: x.aggregations, groupby: x.groupby },
            ),
            LogicalPlan::Pivot(x) => LogicalPlan::Pivot(
                Pivot {
                    input: cs[0],
                    group_by: x.group_by,
                    pivot_column: x.pivot_column,
                    value_column: x.value_column,
                    names: x.names,
                },
            ),
            LogicalPlan::Join(j) => LogicalPlan::Join(
                Join { left: cs[0], right: cs[1], left_on: j.left_on, right_on: j.right_on, join_type: j.join_type },
            ),
            LogicalPlan::Filter { predicate, .. } => LogicalPlan::Filter { input: cs[0], predicate },
            LogicalPlan::Sort { sort_by, .. } => LogicalPlan::Sort { input: cs[0], sort_by },
            LogicalPlan::Limit { limit, .. } => LogicalPlan::Limit { input: cs[0], limit },
            LogicalPlan::TopN { sort_by, limit, .. } => LogicalPlan::TopN { input: cs[0], sort_by, limit },
            LogicalPlan::Sample { per_million, with_replacement, .. } => LogicalPlan::Sample {
                input: cs[0],
                per_million,
                with_replacement,
            },
            LogicalPlan::Explode { to_explode, .. } => LogicalPlan::Explode { input: cs[0], to_explode },
            LogicalPlan::Repartition { by, num_partitions, .. } => LogicalPlan::Repartition {
                input: cs[0],
                by,
                num_partitions,
            },
            LogicalPlan::Shard { world_size, rank, .. } => LogicalPlan::Shard { input: cs[0], world_size, rank },
            LogicalPlan::Unpivot { ids, values, variable_name, value_name, .. } => LogicalPlan::Unpivot {
                input: cs[0],
                ids,
                values,
                variable_name,
                value_name,
            },
            LogicalPlan::Concat { .. } => LogicalPlan::Concat { input: cs[0], other: cs[1] },
            LogicalPlan::Distinct { columns, .. } => LogicalPlan::Distinct { input: cs[0], columns },
            LogicalPlan::Window { window_functions, .. } => LogicalPlan::Window { input: cs[0], window_functions },
            LogicalPlan::MonotonicallyIncreasingId { column_name, .. } => LogicalPlan::MonotonicallyIncreasingId {
                input: cs[0],
                column_name,
            },
            LogicalPlan::Intersect { .. } => LogicalPlan::Intersect { lhs: cs[0], rhs: cs[1] },
            LogicalPlan::Sink { .. } => LogicalPlan::Sink { input: cs[0] },
            LogicalPlan::Union { .. } => LogicalPlan::Union { lhs: cs[0], rhs: cs[1] },
            LogicalPlan::SubqueryAlias { name, .. } => LogicalPlan::SubqueryAlias { input: cs[0], name },
        }))
    }
}


/// The set of columns each input of a plan node must provide, one set per
/// input, each in order of first use.
pub open spec fn node_required(p: LogicalPlan) -> Seq<Seq<Seq<char>>> {
    let none = Seq::<Seq<char>>::empty();
    match p {
        LogicalPlan::Source(_) => Seq::empty(),
        LogicalPlan::Project(x) => seq![dedup(list_refs(x.projection))],
        LogicalPlan::UDFProject(x) => seq![dedup(list_refs(x.passthrough_columns) + column_refs((*x.project)@))],
        LogicalPlan::Aggregate(x) => seq![dedup(list_refs(x.aggregations) + list_refs(x.groupby))],
        LogicalPlan::Filter { predicate, .. } => seq![dedup(column_refs((*predicate)@))],
        LogicalPlan::Sort { sort_by, .. } | LogicalPlan::TopN { sort_by, .. } => seq![dedup(list_refs(sort_by))],
        LogicalPlan::Limit { .. } | LogicalPlan::Sample { .. } | LogicalPlan::Shard { .. }
        | LogicalPlan::MonotonicallyIncreasingId { .. } | LogicalPlan::SubqueryAlias { .. } => seq![none],
        LogicalPlan::Explode { to_explode, .. } => seq![dedup(list_refs(to_explode))],
        LogicalPlan::Repartition { by, .. } => seq![dedup(list_refs(by))],
        LogicalPlan::Unpivot { ids, values, .. } => seq![dedup(list_refs(ids) + list_refs(values))],
        LogicalPlan::Concat { .. } => seq![none, none],
        LogicalPlan::Join(j) => seq![dedup(list_refs(j.left_on)), dedup(list_refs(j.right_on))],
        LogicalPlan::Distinct { input, columns } => match columns {
            Some(c) => seq![dedup(list_refs(c))],
            None => seq![dedup(plan_schema(*input))],
        },
        LogicalPlan::Pivot(x) => seq![
            dedup(list_refs(x.group_by) + column_refs((*x.pivot_column)@) + column_refs((*x.value_column)@)),
        ],
        LogicalPlan::Window { input, .. } | LogicalPlan::Sink { input } => seq![dedup(plan_schema(*input))],
        LogicalPlan::Intersect { lhs, rhs } | LogicalPlan::Union { lhs, rhs } => seq![
            dedup(plan_schema(*lhs)),
            dedup(plan_schema(*rhs)),
        ],
    }
}

/// The output names of the expressions of `l`.
pub(crate) fn list_names_exec(l: &ExprList) -> (r: Vec<String>)
    ensures
        strings_view(r@) == list_names(*l),
{
    let v: &Vec<ExprRef> = &**l;
    let mut out: Vec<String> = Vec::new();
    let mut i: usize = 0;
    proof {
        lemma_exprs_view_index(v@);
    }
    while i < v.len()
        invariant
            0 <= i <= v.len(),
            v@ == (**l)@,
            out@.len() == i,
            exprs_view(v@).len() == v@.len(),
            forall|j: int| 0 <= j < v@.len() ==> #[trigger] exprs_view(v@)[j] == (*v@[j])@,
            forall|j: int| 0 <= j < i ==> #[trigger] out@[j]@ == name_of((*v@[j])@),
        decreases v.len() - i,
    {
        out.push(v[i].name().to_owned());
        i = i + 1;
    }
    assert(strings_view(out@) =~= list_names(*l));
    out
}

/// The columns the expressions of `l` read, in order, with repeats.
pub(crate) fn list_refs_exec(l: &ExprList) -> (r: Vec<String>)
    ensures
        strings_view(r@) == list_refs(*l),
{
    required_columns_all(&**l)
}

fn schema_names_exec(s: &SchemaRef) -> (r: Vec<String>)
    ensures
        strings_view(r@) == field_names((**s)@),
{
    let v: &Vec<Field> = &**s;
    let mut out: Vec<String> = Vec::new();
    let mut i: usize = 0;
    while i < v.len()
        invariant
            0 <= i <= v.len(),
            v@ == (**s)@,
            out@.len() == i,
            forall|j: int| 0 <= j < i ==> #[trigger] out@[j]@ == v@[j].name@,
        decreases v.len() - i,
    {
        out.push(v[i].name.clone());
        i = i + 1;
    }
    assert(strings_view(out@) =~= field_names((**s)@));
    out
}

fn concat_strings(a: Vec<String>, b: Vec<String>) -> (r: Vec<String>)
    ensures
        strings_view(r@) == strings_view(a@) + strings_view(b@),
{
    let mut a = a;
    let mut b = b;
    let ghost a0 = a@;
    let ghost b0 = b@;
    a.append(&mut b);
    assert(strings_view(a@) =~= strings_view(a0) + strings_view(b0));
    a
}

fn push_string(a: Vec<String>, s: String) -> (r: Vec<String>)
    ensures
        strings_view(r@) == strings_view(a@).push(s@),
{
    let mut a = a;
    let ghost a0 = a@;
    a.push(s);
    assert(strings_view(a@) =~= strings_view(a0).push(s@));
    a
}

fn single_set(names: Vec<String>) -> (r: Vec<ColumnSet>)
    ensures
        r@.len() == 1,
        column_set_items(r@[0]) == dedup(strings_view(names@)),
{
    let s = column_set_from(&names);
    let mut v: Vec<ColumnSet> = Vec::new();
    v.push(s);
    v
}

fn no_strings() -> (r: Vec<String>)
    ensures
        strings_view(r@) == Seq::<Seq<char>>::empty(),
{
    let r: Vec<String> = Vec::new();
    assert(strings_view(r@) =~= Seq::<Seq<char>>::empty());
    r
}

fn share_list(l: &Option<ExprList>) -> (r: Option<ExprList>)
    ensures
        r == *l,
{
    match l {
        Some(x) => Some(x.clone()),
        None => None,
    }
}

impl LogicalPlan {
    /// The number of inputs of this node.
    pub fn arity(&self) -> (r: usize)
        ensures
            r == plan_children(*self).len(),
    {
        match self {
            LogicalPlan::Source(_) => 0,
            LogicalPlan::Join(_) | LogicalPlan::Concat { .. } | LogicalPlan::Intersect { .. } | LogicalPlan::Union {
                ..
            } => 2,
            _ => 1,
        }
    }

    /// The output column names, in order.
    pub fn schema(&self) -> (r: Vec<String>)
        ensures
            strings_view(r@) == plan_schema(*self),
        decreases self,
    {
        match self {
            LogicalPlan::Source(s) => schema_names_exec(&s.output_schema),
            LogicalPlan::Project(x) => list_names_exec(&x.projection),
            LogicalPlan::UDFProject(x) => push_string(list_names_exec(&x.passthrough_columns), x.project.name().to_owned()),
            LogicalPlan::Aggregate(x) => concat_strings(list_names_exec(&x.groupby), list_names_exec(&x.aggregations)),
            LogicalPlan::Filter { input, .. } | LogicalPlan::Sort { input, .. } | LogicalPlan::Limit { input, .. }
            | LogicalPlan::TopN { input, .. } | LogicalPlan::Sample { input, .. } | LogicalPlan::Explode { input, .. }
            | LogicalPlan::Repartition { input, .. } | LogicalPlan::Shard { input, .. } | LogicalPlan::Concat {
                input,
                ..
            } | LogicalPlan::Distinct { input, .. } | LogicalPlan::Sink { input } | LogicalPlan::SubqueryAlias {
                input,
                ..
            } => input.schema(),
            LogicalPlan::Unpivot { ids, variable_name, value_name, .. } => push_string(
                push_string(list_names_exec(ids), variable_name.clone()),
                value_name.clone(),
            ),
            LogicalPlan::Join(j) => if j.join_type == JoinType::Semi || j.join_type == JoinType::Anti {
                j.left.schema()
            } else {
                concat_strings(j.left.schema(), j.right.schema())
            },
            LogicalPlan::Pivot(x) => {
                let names: &Vec<String> = &*x.names;
                let mut copy: Vec<String> = Vec::new();
                let mut i: usize = 0;
                while i < names.len()
                    invariant
                        0 <= i <= names.len(),
                        names@ == (*x.names)@,
                        copy@.len() == i,
                        forall|j: int| 0 <= j < i ==> #[trigger] copy@[j]@ == names@[j]@,
                    decreases names.len() - i,
                {
                    copy.push(names[i].clone());
                    i = i + 1;
                }
                assert(strings_view(copy@) =~= strings_view((*x.names)@));
                concat_strings(list_names_exec(&x.group_by), copy)
            },
            LogicalPlan::Window { input, window_functions } => concat_strings(input.schema(), list_names_exec(window_functions)),
            LogicalPlan::MonotonicallyIncreasingId { input, column_name } => push_string(input.schema(), column_name.clone()),
            LogicalPlan::Intersect { lhs, .. } | LogicalPlan::Union { lhs, .. } => lhs.schema(),
        }
    }

    /// For each input, the set of its columns that this node reads.
    pub fn required_columns(&self) -> (r: Vec<ColumnSet>)
        ensures
            r@.len() == node_required(*self).len(),
            forall|i: int| 0 <= i < r@.len() ==> #[trigger] column_set_items(r@[i]) == node_required(*self)[i],
    {
        match self {
            LogicalPlan::Source(_) => Vec::new(),
            LogicalPlan::Project(x) => single_set(list_refs_exec(&x.projection)),
            LogicalPlan::UDFProject(x) => single_set(
                concat_strings(list_refs_exec(&x.passthrough_columns), get_required_columns(&x.project)),
            ),
            LogicalPlan::Aggregate(x) => single_set(concat_strings(list_refs_exec(&x.aggregations), list_refs_exec(&x.groupby))),
            LogicalPlan::Filter { predicate, .. } => single_set(get_required_columns(predicate)),
            LogicalPlan::Sort { sort_by, .. } | LogicalPlan::TopN { sort_by, .. } => single_set(list_refs_exec(sort_by)),
            LogicalPlan::Limit { .. } | LogicalPlan::Sample { .. } | LogicalPlan::Shard { .. }
            | LogicalPlan::MonotonicallyIncreasingId { .. } | LogicalPlan::SubqueryAlias { .. } => single_set(no_strings()),
            LogicalPlan::Explode { to_explode, .. } => single_set(list_refs_exec(to_explode)),
            LogicalPlan::Repartition { by, .. } => single_set(list_refs_exec(by)),
            LogicalPlan::Unpivot { ids, values, .. } => single_set(concat_strings(list_refs_exec(ids), list_refs_exec(values))),
            LogicalPlan::Concat { .. } => {
                let mut v = single_set(no_strings());
                v.push(column_set_from(&no_strings()));
                v
            },
            LogicalPlan::Join(j) => {
                let mut v = single_set(list_refs_exec(&j.left_on));
                v.push(column_set_from(&list_refs_exec(&j.right_on)));
                v
            },
            LogicalPlan::Distinct { input, columns } => match columns {
                Some(c) => single_set(list_refs_exec(c)),
                None => single_set(input.schema()),
            },
            LogicalPlan::Pivot(x) => single_set(
                concat_strings(
                    concat_strings(list_refs_exec(&x.group_by), get_required_columns(&x.pivot_column)),
                    get_required_columns(&x.value_column),
                ),
            ),
            LogicalPlan::Window { input, .. } | LogicalPlan::Sink { input } => single_set(input.schema()),
            LogicalPlan::Intersect { lhs, rhs } | LogicalPlan::Union { lhs, rhs } => {
                let mut v = single_set(lhs.schema());
                v.push(column_set_from(&rhs.schema()));
                v
            },
        }
    }
}

impl DynTreeNode for LogicalPlan {
    open spec fn spec_arc_children(&self) -> Seq<Arc<LogicalPlan>> {
        plan_children(*self)
    }

    open spec fn spec_node_size(&self) -> nat {
        plan_size(*self)
    }

    open spec fn spec_with_new_arc_children(self, children: Seq<Arc<LogicalPlan>>) -> DaftResult<Arc<LogicalPlan>> {
        plan_with_children(self, children)
    }

    proof fn lemma_arc_children_smaller(&self) {
    }

    fn arc_children(&self) -> (r: Vec<Arc<LogicalPlan>>) {
        match self {
            LogicalPlan::Source(_) => Vec::new(),
            LogicalPlan::Project(x) => vec![x.input.clone()],
            LogicalPlan::UDFProject(x) => vec![x.input.clone()],
            LogicalPlan::Aggregate(x) => vec![x.input.clone()],
            LogicalPlan::Pivot(x) => vec![x.input.clone()],
            LogicalPlan::Join(j) => vec![j.left.clone(), j.right.clone()],
            LogicalPlan::Concat { input, other } => vec![input.clone(), other.clone()],
            LogicalPlan::Intersect { lhs, rhs } | LogicalPlan::Union { lhs, rhs } => vec![lhs.clone(), rhs.clone()],
            LogicalPlan::Filter { input, .. } | LogicalPlan::Sort { input, .. } | LogicalPlan::Limit { input, .. }
            | LogicalPlan::TopN { input, .. } | LogicalPlan::Sample { input, .. } | LogicalPlan::Explode { input, .. }
            | LogicalPlan::Repartition { input, .. } | LogicalPlan::Shard { input, .. } | LogicalPlan::Unpivot {
                input,
                ..
            } | LogicalPlan::Distinct { input, .. } | LogicalPlan::Window { input, .. }
            | LogicalPlan::MonotonicallyIncreasingId { input, .. } | LogicalPlan::Sink { input }
            | LogicalPlan::SubqueryAlias { input, .. } => vec![input.clone()],
        }
    }

    fn with_new_arc_children(this: Arc<LogicalPlan>, new_children: Vec<Arc<LogicalPlan>>) -> (r: DaftResult<
        Arc<LogicalPlan>,
    >) {
        let n = this.arity();
        if new_children.len() != n {
            return Err(DaftError::WrongChildCount { expected: n, found: new_children.len() });
        }
        if n == 0 {
            return Ok(this);
        }
        let c0 = new_children[0].clone();
        let p = match &*this {
            LogicalPlan::Source(_) => {
                return Ok(this.clone());
            },
            LogicalPlan::Project(x) => LogicalPlan::Project(Project { input: c0, projection: x.projection.clone() }),
            LogicalPlan::UDFProject(x) => LogicalPlan::UDFProject(
                UDFProject { input: c0, project: x.project.clone(), passthrough_columns: x.passthrough_columns.clone() },
            ),
            LogicalPlan::Aggregate(x) => LogicalPlan::Aggregate(
                Aggregate { input: c0, aggregations: x.aggregations.clone(), groupby: x.groupby.clone() },
            ),
            LogicalPlan::Pivot(x) => LogicalPlan::Pivot(
                Pivot {
                    input: c0,
                    group_by: x.group_by.clone(),
                    pivot_column: x.pivot_column.clone(),
                    value_column: x.value_column.clone(),
                    names: x.names.clone(),
                },
            ),
            LogicalPlan::Join(j) => LogicalPlan::Join(
                Join {
                    left: c0,
                    right: new_children[1].clone(),
                    left_on: j.left_on.clone(),
                    right_on: j.right_on.clone(),
                    join_type: j.join_type,
                },
            ),
            LogicalPlan::Filter { predicate, .. } => LogicalPlan::Filter { input: c0, predicate: predicate.clone() },
            LogicalPlan::Sort { sort_by, .. } => LogicalPlan::Sort { input: c0, sort_by: sort_by.clone() },
            LogicalPlan::Limit { limit, .. } => LogicalPlan::Limit { input: c0, limit: *limit },
            LogicalPlan::TopN { sort_by, limit, .. } => LogicalPlan::TopN {
                input: c0,
                sort_by: sort_by.clone(),
                limit: *limit,
            },
            LogicalPlan::Sample { per_million, with_replacement, .. } => LogicalPlan::Sample {
                input: c0,
                per_million: *per_million,
                with_replacement: *with_replacement,
            },
            LogicalPlan::Explode { to_explode, .. } => LogicalPlan::Explode { input: c0, to_explode: to_explode.clone() },
            LogicalPlan::Repartition { by, num_partitions, .. } => LogicalPlan::Repartition {
                input: c0,
                by: by.clone(),
                num_partitions: *num_partitions,
            },
            LogicalPlan::Shard { world_size, rank, .. } => LogicalPlan::Shard {
                input: c0,
                world_size: *world_size,
                rank: *rank,
            },
            LogicalPlan::Unpivot { ids, values, variable_name, value_name, .. } => LogicalPlan::Unpivot {
                input: c0,
                ids: ids.clone(),
                values: values.clone(),
                variable_name: variable_name.clone(),
                value_name: value_name.clone(),
            },
            LogicalPlan::Concat { .. } => LogicalPlan::Concat { input: c0, other: new_children[1].clone() },
            LogicalPlan::Distinct { columns, .. } => LogicalPlan::Distinct { input: c0, columns: share_list(columns) },
            LogicalPlan::Window { window_functions, .. } => LogicalPlan::Window {
                input: c0,
                window_functions: window_functions.clone(),
            },
            LogicalPlan::MonotonicallyIncreasingId { column_name, .. } => LogicalPlan::MonotonicallyIncreasingId {
                input: c0,
                column_name: column_name.clone(),
            },
            LogicalPlan::Intersect { .. } => LogicalPlan::Intersect { lhs: c0, rhs: new_children[1].clone() },
            LogicalPlan::Sink { .. } => LogicalPlan::Sink { input: c0 },
            LogicalPlan::Union { .. } => LogicalPlan::Union { lhs: c0, rhs: new_children[1].clone() },
            LogicalPlan::SubqueryAlias { name, .. } => LogicalPlan::SubqueryAlias { input: c0, name: name.clone() },
        };
        Ok(Arc::new(p))
    }
}

} // verus!
