use std::cell::RefCell;
use std::sync::Arc;

use daft_plan_rewrite::error::{DaftError, DaftResult};
use daft_plan_rewrite::expr::resolved_col;
use daft_plan_rewrite::plan::{Join, JoinType, LogicalPlan, LogicalPlanRef, Source, SourceInfo, InMemoryInfo};
use daft_plan_rewrite::schema::{DataType, Field};
use daft_plan_rewrite::treenode::{Transformed, TreeNodeIterator, TreeNodeRecursion, TreeNodeTraversal};

fn leaf(label: &str) -> LogicalPlanRef {
    let schema = Arc::new(vec![Field::new(label.to_string(), DataType::Int64)]);
    let info = InMemoryInfo::new(schema.clone(), format!("cache-{label}"), 1, 0, 0);
    Arc::new(LogicalPlan::Source(Source { output_schema: schema, source_info: Arc::new(SourceInfo::InMemory(info)) }))
}

fn unary(label: &str, input: LogicalPlanRef) -> LogicalPlanRef {
    Arc::new(LogicalPlan::SubqueryAlias { input, name: label.to_string() })
}

fn binary(label: &str, left: LogicalPlanRef, right: LogicalPlanRef) -> LogicalPlanRef {
    Arc::new(LogicalPlan::Join(Join {
        left,
        right,
        left_on: Arc::new(vec![resolved_col(label.to_string())]),
        right_on: Arc::new(vec![]),
        join_type: JoinType::Inner,
    }))
}

fn label(n: &LogicalPlanRef) -> String {
    match n.as_ref() {
        LogicalPlan::Source(s) => s.output_schema[0].name.clone(),
        LogicalPlan::SubqueryAlias { name, .. } => name.clone(),
        LogicalPlan::Join(j) => j.left_on[0].name().to_string(),
        _ => panic!("unexpected node"),
    }
}

fn relabel(n: &LogicalPlanRef, new_label: &str) -> LogicalPlanRef {
    match n.as_ref() {
        LogicalPlan::Source(_) => leaf(new_label),
        LogicalPlan::SubqueryAlias { input, .. } => unary(new_label, input.clone()),
        LogicalPlan::Join(j) => binary(new_label, j.left.clone(), j.right.clone()),
        _ => panic!("unexpected node"),
    }
}

fn labels(n: &LogicalPlanRef) -> Vec<String> {
    let log = RefCell::new(Vec::new());
    n.apply(|x: &LogicalPlanRef| {
        log.borrow_mut().push(label(x));
        Ok(TreeNodeRecursion::Continue)
    })
    .unwrap();
    log.into_inner()
}

//       J
//       |
//       I
//       |
//       F
//     /   \
//    E     G
//    |     |
//    C     H
//  /   \
// B     D
//       |
//       A
fn test_tree() -> LogicalPlanRef {
    let node_a = leaf("a");
    let node_b = leaf("b");
    let node_d = unary("d", node_a);
    let node_c = binary("c", node_b, node_d);
    let node_e = unary("e", node_c);
    let node_h = leaf("h");
    let node_g = unary("g", node_h);
    let node_f = binary("f", node_e, node_g);
    let node_i = unary("i", node_f);
    unary("j", node_i)
}

fn strings(v: &[&str]) -> Vec<String> {
    v.iter().map(|s| s.to_string()).collect()
}

fn all_visits() -> Vec<String> {
    strings(&[
        "f_down(j)", "f_down(i)", "f_down(f)", "f_down(e)", "f_down(c)", "f_down(b)", "f_up(b)", "f_down(d)",
        "f_down(a)", "f_up(a)", "f_up(d)", "f_up(c)", "f_up(e)", "f_down(g)", "f_down(h)", "f_up(h)", "f_up(g)",
        "f_up(f)", "f_up(i)", "f_up(j)",
    ])
}

/// Walks the test tree with logging callbacks that return `down_signal` in
/// `f_down` on `down_at` and `up_signal` in `f_up` on `up_at`.
fn logged_walk(
    down_at: &str,
    down_signal: TreeNodeRecursion,
    up_at: &str,
    up_signal: TreeNodeRecursion,
) -> (Vec<String>, DaftResult<Transformed<LogicalPlanRef>>) {
    let log = RefCell::new(Vec::new());
    let r = test_tree().transform_down_up(
        |n: LogicalPlanRef| {
            let l = label(&n);
            log.borrow_mut().push(format!("f_down({l})"));
            let s = if l == down_at { down_signal } else { TreeNodeRecursion::Continue };
            Ok(Transformed::new(n, false, s))
        },
        |n: LogicalPlanRef| {
            let l = label(&n);
            log.borrow_mut().push(format!("f_up({l})"));
            let s = if l == up_at { up_signal } else { TreeNodeRecursion::Continue };
            Ok(Transformed::new(n, false, s))
        },
    );
    (log.into_inner(), r)
}

#[test]
fn walk_all_continue_gives_pre_and_post_order() {
    let (log, r) = logged_walk("", TreeNodeRecursion::Continue, "", TreeNodeRecursion::Continue);
    let r = r.unwrap();
    assert_eq!(log, all_visits());
    assert_eq!(r.tnr, TreeNodeRecursion::Continue);
    assert!(!r.transformed);
}

#[test]
fn walk_jump_in_f_down_on_e_skips_its_subtree() {
    let (log, _) = logged_walk("e", TreeNodeRecursion::Jump, "", TreeNodeRecursion::Continue);
    let expected = strings(&[
        "f_down(j)", "f_down(i)", "f_down(f)", "f_down(e)", "f_up(e)", "f_down(g)", "f_down(h)", "f_up(h)",
        "f_up(g)", "f_up(f)", "f_up(i)", "f_up(j)",
    ]);
    assert_eq!(log, expected);
}

#[test]
fn walk_stop_in_f_down_on_a_ends_the_log() {
    let (log, r) = logged_walk("a", TreeNodeRecursion::Stop, "", TreeNodeRecursion::Continue);
    assert_eq!(r.unwrap().tnr, TreeNodeRecursion::Stop);
    let expected: Vec<String> = all_visits().into_iter().take(9).collect();
    assert_eq!(log, expected);
    assert_eq!(log.last().unwrap(), "f_down(a)");
}

#[test]
fn walk_stop_in_f_up_on_a_ends_the_log() {
    let (log, r) = logged_walk("", TreeNodeRecursion::Continue, "a", TreeNodeRecursion::Stop);
    assert_eq!(r.unwrap().tnr, TreeNodeRecursion::Stop);
    assert_eq!(log.len(), 10);
    assert_eq!(log.last().unwrap(), "f_up(a)");
}

#[test]
fn walk_jump_in_f_up_on_a_skips_ancestors_until_next_sibling_subtree() {
    let (log, _) = logged_walk("", TreeNodeRecursion::Continue, "a", TreeNodeRecursion::Jump);
    let expected = strings(&[
        "f_down(j)", "f_down(i)", "f_down(f)", "f_down(e)", "f_down(c)", "f_down(b)", "f_up(b)", "f_down(d)",
        "f_down(a)", "f_up(a)", "f_down(g)", "f_down(h)", "f_up(h)", "f_up(g)", "f_up(f)", "f_up(i)", "f_up(j)",
    ]);
    assert_eq!(log, expected);
}

#[test]
fn apply_visits_top_down_only() {
    assert_eq!(labels(&test_tree()), strings(&["j", "i", "f", "e", "c", "b", "d", "a", "g", "h"]));
}

#[test]
fn apply_jump_on_e_prunes_its_subtree() {
    let log = RefCell::new(Vec::new());
    test_tree()
        .apply(|n: &LogicalPlanRef| {
            let l = label(n);
            log.borrow_mut().push(l.clone());
            Ok(if l == "e" { TreeNodeRecursion::Jump } else { TreeNodeRecursion::Continue })
        })
        .unwrap();
    assert_eq!(log.into_inner(), strings(&["j", "i", "f", "e", "g", "h"]));
}

#[test]
fn exists_node_finds_a_leaf_and_misses_an_absent_label() {
    let tree = test_tree();
    assert!(tree.exists_node(|n: &LogicalPlanRef| label(n) == "h"));
    assert!(!tree.exists_node(|n: &LogicalPlanRef| label(n) == "z"));
}

#[test]
fn transform_down_identity_is_unchanged() {
    let tree = test_tree();
    let r = tree.clone().transform_down(|n| Ok(Transformed::no(n))).unwrap();
    assert!(!r.transformed);
    assert_eq!(r.tnr, TreeNodeRecursion::Continue);
    assert!(Arc::ptr_eq(&r.data, &tree));
}

#[test]
fn transform_up_identity_is_unchanged() {
    let tree = test_tree();
    let r = tree.clone().transform_up(|n| Ok(Transformed::no(n))).unwrap();
    assert!(!r.transformed);
    assert!(Arc::ptr_eq(&r.data, &tree));
}

#[test]
fn transform_down_yes_on_one_leaf_marks_the_whole_walk_changed() {
    let r = test_tree()
        .transform_down(|n: LogicalPlanRef| {
            if label(&n) == "h" { Ok(Transformed::yes(relabel(&n, "h2"))) } else { Ok(Transformed::no(n)) }
        })
        .unwrap();
    assert!(r.transformed);
    assert_eq!(labels(&r.data), strings(&["j", "i", "f", "e", "c", "b", "d", "a", "g", "h2"]));
}

#[test]
fn transform_up_rewrites_children_before_parents() {
    let order = RefCell::new(Vec::new());
    let r = test_tree()
        .transform_up(|n: LogicalPlanRef| {
            let l = label(&n);
            order.borrow_mut().push(l.clone());
            Ok(Transformed::yes(relabel(&n, &format!("{l}'"))))
        })
        .unwrap();
    assert!(r.transformed);
    assert_eq!(order.into_inner(), strings(&["b", "a", "d", "c", "e", "h", "g", "f", "i", "j"]));
    assert_eq!(label(&r.data), "j'");
}

#[test]
fn transform_down_stop_on_a_keeps_later_siblings() {
    let r = test_tree()
        .transform_down(|n: LogicalPlanRef| {
            let l = label(&n);
            let s = if l == "a" { TreeNodeRecursion::Stop } else { TreeNodeRecursion::Continue };
            Ok(Transformed::new(relabel(&n, &format!("x{l}")), true, s))
        })
        .unwrap();
    assert_eq!(r.tnr, TreeNodeRecursion::Stop);
    assert_eq!(labels(&r.data), strings(&["xj", "xi", "xf", "xe", "xc", "xb", "xd", "xa", "g", "h"]));
}

#[test]
fn error_in_a_sibling_prevents_later_siblings() {
    let log = RefCell::new(Vec::new());
    let r = test_tree().apply(|n: &LogicalPlanRef| {
        let l = label(n);
        log.borrow_mut().push(l.clone());
        if l == "e" { Err(DaftError::ValueError("boom".to_string())) } else { Ok(TreeNodeRecursion::Continue) }
    });
    assert!(r.is_err());
    assert_eq!(log.into_inner(), strings(&["j", "i", "f", "e"]));
}

#[test]
fn rewrite_error_aborts_the_walk() {
    let r = test_tree().transform_down(|n: LogicalPlanRef| {
        if label(&n) == "c" { Err(DaftError::TypeError("bad".to_string())) } else { Ok(Transformed::yes(n)) }
    });
    assert_eq!(r.err(), Some(DaftError::TypeError("bad".to_string())));
}

#[test]
fn signal_combinators() {
    let stop: DaftResult<TreeNodeRecursion> = Ok(TreeNodeRecursion::Stop);
    assert_eq!(TreeNodeRecursion::Continue.visit_children(|| stop.clone()).unwrap(), TreeNodeRecursion::Stop);
    assert_eq!(TreeNodeRecursion::Jump.visit_children(|| stop.clone()).unwrap(), TreeNodeRecursion::Continue);
    assert_eq!(TreeNodeRecursion::Stop.visit_children(|| stop.clone()).unwrap(), TreeNodeRecursion::Stop);
    assert_eq!(TreeNodeRecursion::Jump.visit_sibling(|| stop.clone()).unwrap(), TreeNodeRecursion::Stop);
    assert_eq!(
        TreeNodeRecursion::Jump.visit_parent(|| Ok(TreeNodeRecursion::Continue)).unwrap(),
        TreeNodeRecursion::Jump
    );
}

#[test]
fn transformed_envelope_helpers() {
    let y = Transformed::yes(1);
    assert!(y.transformed);
    assert_eq!(y.tnr, TreeNodeRecursion::Continue);
    assert!(!Transformed::no(2).transformed);
    assert_eq!(Transformed::no(3).or(Transformed::yes(4)).data, 4);
    assert_eq!(Transformed::yes(3).or(Transformed::yes(4)).data, 3);
    assert_eq!(Transformed::yes(5).map_yes_no(|x| x * 10, |x| x).data, 50);
    assert_eq!(Transformed::no(5).map_yes_no(|x| x * 10, |x| x + 1).data, 6);
    let j = Transformed::new(1, false, TreeNodeRecursion::Jump).transform_children(|x| Ok(Transformed::yes(x + 1))).unwrap();
    assert_eq!(j.tnr, TreeNodeRecursion::Continue);
    assert_eq!(j.data, 1);
    let c = Transformed::new(1, true, TreeNodeRecursion::Continue).transform_parent(|x| Ok(Transformed::no(x + 1))).unwrap();
    assert!(c.transformed);
    assert_eq!(c.data, 2);
    let s = Transformed::new(1, false, TreeNodeRecursion::Stop).transform_sibling(|x| Ok(Transformed::yes(x + 1))).unwrap();
    assert_eq!(s.data, 1);
    let u = Transformed::yes(2).update_data(|x| x * 3);
    assert_eq!((u.data, u.transformed), (6, true));
}

#[test]
fn sibling_iterators_short_circuit_on_stop() {
    let r = vec![1, 2, 3]
        .map_until_stop_and_collect(|x| {
            Ok(Transformed::new(x * 10, x == 1, if x == 2 { TreeNodeRecursion::Stop } else { TreeNodeRecursion::Continue }))
        })
        .unwrap();
    assert_eq!(r.data, vec![10, 20, 3]);
    assert!(r.transformed);
    assert_eq!(r.tnr, TreeNodeRecursion::Stop);
    let all = vec![1, 2, 3]
        .map_and_collect(|x| {
            Ok(Transformed::new(x * 10, false, if x == 2 { TreeNodeRecursion::Stop } else { TreeNodeRecursion::Continue }))
        })
        .unwrap();
    assert_eq!(all.data, vec![10, 20, 30]);
    assert!(!all.transformed);
    let sig = vec![1, 2, 3]
        .apply_until_stop(|x| Ok(if x == 2 { TreeNodeRecursion::Stop } else { TreeNodeRecursion::Jump }))
        .unwrap();
    assert_eq!(sig, TreeNodeRecursion::Stop);
    let empty: Vec<i32> = vec![];
    assert_eq!(empty.apply_until_stop(|_| Ok(TreeNodeRecursion::Stop)).unwrap(), TreeNodeRecursion::Continue);
}

#[test]
fn map_children_rewrites_only_the_direct_children() {
    let tree = binary("f", unary("e", leaf("a")), leaf("g"));
    let r = tree
        .map_children(|n: LogicalPlanRef| {
            let l = label(&n);
            Ok(Transformed::yes(relabel(&n, &format!("{l}2"))))
        })
        .unwrap();
    assert!(r.transformed);
    assert_eq!(labels(&r.data), strings(&["f", "e2", "a", "g2"]));
}

#[test]
fn map_children_without_change_keeps_the_node() {
    let tree = binary("f", leaf("a"), leaf("b"));
    let r = tree.clone().map_children(|n: LogicalPlanRef| Ok(Transformed::no(n))).unwrap();
    assert!(!r.transformed);
    assert!(Arc::ptr_eq(&r.data, &tree));
}

#[test]
fn apply_children_stops_at_the_first_stop() {
    let tree = binary("f", leaf("a"), leaf("b"));
    let log = RefCell::new(Vec::new());
    let r = tree
        .apply_children(|n: &LogicalPlanRef| {
            log.borrow_mut().push(label(n));
            Ok(TreeNodeRecursion::Stop)
        })
        .unwrap();
    assert_eq!(r, TreeNodeRecursion::Stop);
    assert_eq!(log.into_inner(), strings(&["a"]));
}
