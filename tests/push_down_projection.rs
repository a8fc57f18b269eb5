use std::sync::Arc;

use daft_plan_rewrite::expr::{lit, resolved_col, Expr, ExprRef};
use daft_plan_rewrite::plan::{
    Aggregate, Join, JoinType, LogicalPlan, LogicalPlanRef, PhysicalScanInfo, Project, Pushdowns, Source, SourceInfo, UDFProject,
};
use daft_plan_rewrite::push_down_projection::{is_rule_input_ok, PushDownProjection};
use daft_plan_rewrite::schema::{DataType, Field};

fn fields(names: &[&str]) -> Vec<Field> {
    names.iter().map(|n| Field::new(n.to_string(), DataType::Int64)).collect()
}

fn scan_with(names: &[&str], columns: Option<&[&str]>) -> LogicalPlanRef {
    let full = Arc::new(fields(names));
    let (output, pushdowns) = match columns {
        None => (full.clone(), Pushdowns::new()),
        Some(cols) => {
            let kept: Vec<&str> = names.iter().copied().filter(|n| cols.contains(n)).collect();
            let pd = Pushdowns::new().with_columns(Some(Arc::new(cols.iter().map(|c| c.to_string()).collect())));
            (Arc::new(fields(&kept)), pd)
        }
    };
    let info = SourceInfo::Physical(PhysicalScanInfo { source_schema: full, pushdowns });
    Arc::new(LogicalPlan::Source(Source { output_schema: output, source_info: Arc::new(info) }))
}

fn scan(names: &[&str]) -> LogicalPlanRef {
    scan_with(names, None)
}

fn col(n: &str) -> ExprRef {
    resolved_col(n.to_string())
}

fn add(a: ExprRef, b: ExprRef) -> ExprRef {
    Arc::new(Expr::Function { name: "add".to_string(), inputs: vec![a, b] })
}

fn mean(a: ExprRef) -> ExprRef {
    Arc::new(Expr::Function { name: "mean".to_string(), inputs: vec![a] })
}

fn alias(e: ExprRef, n: &str) -> ExprRef {
    e.alias(n.to_string())
}

fn udf(inputs: Vec<ExprRef>) -> ExprRef {
    Arc::new(Expr::Udf { name: "my-udf".to_string(), inputs })
}

fn select(input: LogicalPlanRef, exprs: Vec<ExprRef>) -> LogicalPlanRef {
    Arc::new(LogicalPlan::Project(Project { input, projection: Arc::new(exprs) }))
}

fn filter(input: LogicalPlanRef, predicate: ExprRef) -> LogicalPlanRef {
    Arc::new(LogicalPlan::Filter { input, predicate })
}

fn aggregate(input: LogicalPlanRef, aggs: Vec<ExprRef>, groupby: Vec<ExprRef>) -> LogicalPlanRef {
    Arc::new(LogicalPlan::Aggregate(Aggregate { input, aggregations: Arc::new(aggs), groupby: Arc::new(groupby) }))
}

fn udf_project(input: LogicalPlanRef, project: ExprRef, passthrough: Vec<ExprRef>) -> LogicalPlanRef {
    Arc::new(LogicalPlan::UDFProject(UDFProject { input, project, passthrough_columns: Arc::new(passthrough) }))
}

fn unpivot(input: LogicalPlanRef, ids: Vec<ExprRef>, values: Vec<ExprRef>, var: &str, value: &str) -> LogicalPlanRef {
    Arc::new(LogicalPlan::Unpivot {
        input,
        ids: Arc::new(ids),
        values: Arc::new(values),
        variable_name: var.to_string(),
        value_name: value.to_string(),
    })
}

fn optimize(plan: LogicalPlanRef) -> LogicalPlanRef {
    PushDownProjection::new().try_optimize(plan).unwrap().data
}

fn assert_optimized_plan_eq(plan: LogicalPlanRef, expected: LogicalPlanRef) {
    let optimized = optimize(plan.clone());
    assert_eq!(optimized, expected);
    assert_eq!(optimized.schema(), plan.schema());
    assert_eq!(optimize(optimized.clone()), optimized);
}

/// Projection merging: factored projections are not merged.
#[test]
fn test_merge_does_not_unfactor() {
    let a2 = add(col("a"), col("a"));
    let a4 = add(a2.clone(), a2);
    let a8 = add(a4.clone(), a4);
    let plan = select(scan(&["a"]), vec![alias(a8, "x")]);
    assert_optimized_plan_eq(plan.clone(), plan);
}

/// Projection merging: merging happens with computation on both sides.
#[test]
fn test_merge_projections() {
    let proj1 = vec![add(col("a"), lit(1)), add(col("b"), lit(2)), alias(col("a"), "c")];
    let proj2 = vec![add(col("a"), lit(3)), col("b"), add(col("c"), lit(4))];
    let plan = select(select(scan(&["a", "b"]), proj1), proj2);
    let merged = vec![
        add(add(col("a"), lit(1)), lit(3)),
        add(col("b"), lit(2)),
        add(alias(col("a"), "c"), lit(4)),
    ];
    let expected = select(scan(&["a", "b"]), merged);
    assert_optimized_plan_eq(plan, expected);
}

/// Projection dropping: a no-op projection is dropped.
#[test]
fn test_drop_projection() {
    let plan = select(scan(&["a", "b"]), vec![col("a"), col("b")]);
    let optimized = PushDownProjection::new().try_optimize(plan).unwrap();
    assert!(optimized.transformed);
    assert_eq!(optimized.data, scan(&["a", "b"]));
}

/// Projection dropping: a reordering projection is kept.
#[test]
fn test_dont_drop_projection() {
    let plan = select(scan(&["a", "b"]), vec![col("b"), col("a")]);
    let optimized = PushDownProjection::new().try_optimize(plan.clone()).unwrap();
    assert!(!optimized.transformed);
    assert_eq!(optimized.data, plan);
}

/// Projection over a source pushes the used columns into the scan.
#[test]
fn test_projection_source() {
    let proj = vec![add(col("b"), lit(3))];
    let plan = select(scan(&["a", "b"]), proj.clone());
    let expected = select(scan_with(&["a", "b"], Some(&["b"])), proj);
    assert_optimized_plan_eq(plan, expected);
}

/// Projection over projection prunes the unused upstream columns.
#[test]
fn test_projection_projection() {
    let proj1 = vec![add(col("b"), lit(3)), col("a"), alias(col("a"), "x")];
    let proj2 = vec![col("a"), col("b"), alias(col("b"), "c")];
    let plan = select(select(scan(&["a", "b"]), proj1), proj2.clone());
    let new_proj1 = vec![add(col("b"), lit(3)), col("a")];
    let expected = select(select(scan(&["a", "b"]), new_proj1), proj2);
    assert_optimized_plan_eq(plan, expected);
}

/// Projection over aggregation prunes the unused aggregations.
#[test]
fn test_projection_aggregation() {
    let agg = vec![mean(col("a")), mean(col("b"))];
    let group_by = vec![col("c")];
    let proj = vec![col("a")];
    let plan = select(aggregate(scan(&["a", "b", "c"]), agg, group_by.clone()), proj.clone());
    let expected = select(
        aggregate(scan_with(&["a", "b", "c"], Some(&["a", "c"])), vec![mean(col("a"))], group_by),
        proj,
    );
    assert_optimized_plan_eq(plan, expected);
}

/// Projection over a filter pushes the combined columns down.
#[test]
fn test_projection_pushdown() {
    let pred = col("b");
    let proj = vec![col("a")];
    let plan = select(filter(scan(&["a", "b", "c"]), pred.clone()), proj.clone());
    let expected = select(filter(scan_with(&["a", "b", "c"], Some(&["a", "b"])), pred), proj);
    assert_optimized_plan_eq(plan, expected);
}

/// Projection does not push down past a monotonically increasing id.
#[test]
fn test_projection_no_pushdown_monotonically_increasing_id() {
    let with_id = Arc::new(LogicalPlan::MonotonicallyIncreasingId { input: scan(&["a", "b"]), column_name: "id".to_string() });
    let plan = select(with_id, vec![col("id")]);
    assert_optimized_plan_eq(plan.clone(), plan);
}

/// Projection over a user-defined function node prunes its columns.
#[test]
fn test_projection_pushdown_into_udf_project() {
    let mock_udf = udf(vec![col("c")]);
    let plan = select(
        udf_project(scan(&["a", "b", "c"]), alias(mock_udf.clone(), "udf_results"), vec![col("a"), col("b")]),
        vec![col("udf_results")],
    );
    let expected = udf_project(scan_with(&["a", "b", "c"], Some(&["c"])), alias(mock_udf, "udf_results"), vec![]);
    assert_optimized_plan_eq(plan, expected);
}

/// Projection over two user-defined function nodes prunes both.
#[test]
fn test_projection_pushdown_into_double_udf_project() {
    let mock_udf = udf(vec![col("a")]);
    let plan = udf_project(scan(&["a", "b", "c"]), alias(mock_udf.clone(), "udf_results_0"), vec![col("a"), col("b")]);
    let plan = udf_project(
        plan,
        alias(mock_udf.clone(), "udf_results_1"),
        vec![col("a"), col("b"), col("udf_results_0")],
    );
    let plan = select(plan, vec![alias(col("udf_results_0"), "udf_results_0_alias"), col("udf_results_1")]);
    let expected = udf_project(scan_with(&["a", "b", "c"], Some(&["a"])), alias(mock_udf.clone(), "udf_results_0"), vec![col("a")]);
    let expected = udf_project(
        expected,
        alias(mock_udf, "udf_results_1"),
        vec![alias(col("udf_results_0"), "udf_results_0_alias")],
    );
    assert_optimized_plan_eq(plan, expected);
}

/// Projection over a user-defined function node whose column is unused removes the node.
#[test]
fn test_projection_pushdown_into_udf_project_completely_removed() {
    let mock_udf = udf(vec![col("c")]);
    let plan = select(
        udf_project(scan(&["a", "b", "c"]), alias(mock_udf, "udf_results"), vec![col("a"), col("b")]),
        vec![col("a")],
    );
    let expected = scan_with(&["a", "b", "c"], Some(&["a"]));
    assert_optimized_plan_eq(plan, expected);
}

/// Projection over unpivot pushes only the unpivot's declared inputs.
#[test]
fn test_projection_pushdown_with_unpivot() {
    let names = ["year", "id", "Jan", "Feb"];
    let plan = unpivot(scan(&names), vec![col("year")], vec![col("Jan"), col("Feb")], "month", "inventory");
    let plan = select(plan, vec![alias(col("inventory"), "year2")]);
    let expected = unpivot(
        scan_with(&names, Some(&["year", "Jan", "Feb"])),
        vec![col("year")],
        vec![col("Jan"), col("Feb")],
        "month",
        "inventory",
    );
    let expected = select(expected, vec![alias(col("inventory"), "year2")]);
    assert_optimized_plan_eq(plan, expected);
}

/// A passthrough column used twice keeps the function node; only unused
/// passthrough columns are pruned.
#[test]
fn duplicate_required_column_disables_udf_inline() {
    let mock_udf = udf(vec![col("c")]);
    let proj = vec![col("u"), col("a"), alias(col("a"), "a2")];
    let plan = select(
        udf_project(scan(&["a", "b", "c"]), alias(mock_udf.clone(), "u"), vec![col("a"), col("b")]),
        proj.clone(),
    );
    let expected = select(
        udf_project(scan_with(&["a", "b", "c"], Some(&["a", "c"])), alias(mock_udf, "u"), vec![col("a")]),
        proj,
    );
    assert_optimized_plan_eq(plan, expected);
}

/// A second run of the rule changes nothing.
#[test]
fn rule_reaches_a_fixed_point() {
    let plan = select(filter(scan(&["a", "b", "c"]), col("b")), vec![col("a")]);
    let once = PushDownProjection::new().try_optimize(plan).unwrap();
    assert!(once.transformed);
    let twice = PushDownProjection::new().try_optimize(once.data.clone()).unwrap();
    assert!(!twice.transformed);
    assert_eq!(twice.data, once.data);
}

/// The rule never reads more source columns than before.
#[test]
fn pruning_only_narrows_the_scan() {
    let plan = select(filter(scan(&["a", "b", "c"]), col("b")), vec![col("a")]);
    let optimized = optimize(plan);
    let mut leaf = optimized.clone();
    loop {
        let children = match leaf.as_ref() {
            LogicalPlan::Source(_) => break,
            LogicalPlan::Project(p) => p.input.clone(),
            LogicalPlan::Filter { input, .. } => input.clone(),
            _ => panic!("unexpected node"),
        };
        leaf = children;
    }
    assert_eq!(leaf.schema(), vec!["a".to_string(), "b".to_string()]);
}

#[test]
fn readiness_check_rejects_nodes_that_must_be_gone() {
    let ok = select(scan(&["a"]), vec![col("a")]);
    assert!(is_rule_input_ok(&ok));
    let sink_root = Arc::new(LogicalPlan::Sink { input: ok.clone() });
    assert!(is_rule_input_ok(&sink_root));
    let inner_sink = select(Arc::new(LogicalPlan::Sink { input: scan(&["a"]) }), vec![col("a")]);
    assert!(!is_rule_input_ok(&inner_sink));
    let union = Arc::new(LogicalPlan::Union { lhs: scan(&["a"]), rhs: scan(&["a"]) });
    assert!(!is_rule_input_ok(&union));
}

#[test]
fn semi_join_prunes_its_right_input() {
    let join = Arc::new(LogicalPlan::Join(Join {
        left: scan(&["a", "b"]),
        right: scan(&["k", "x", "y"]),
        left_on: Arc::new(vec![col("a")]),
        right_on: Arc::new(vec![col("k")]),
        join_type: JoinType::Semi,
    }));
    let expected = Arc::new(LogicalPlan::Join(Join {
        left: scan(&["a", "b"]),
        right: scan_with(&["k", "x", "y"], Some(&["k"])),
        left_on: Arc::new(vec![col("a")]),
        right_on: Arc::new(vec![col("k")]),
        join_type: JoinType::Semi,
    }));
    assert_optimized_plan_eq(join, expected);
}
