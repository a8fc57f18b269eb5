use std::sync::Arc;

use daft_plan_rewrite::error::DaftError;
use daft_plan_rewrite::expr::{get_required_columns, lit, replace_columns_with_expressions, resolved_col, Expr};
use daft_plan_rewrite::plan::{InMemoryInfo, LogicalPlan, PlaceHolderInfo, Source, SourceInfo};
use daft_plan_rewrite::schema::{DataType, Field, FieldID};
use daft_plan_rewrite::treenode::DynTreeNode;

#[test]
fn field_id_escapes_delimiters_then_backslashes() {
    let id = FieldID::from_name("a.b(c)".to_string());
    assert_eq!(id.id, "a\\x5cx2eb\\x5cx28c\\x5cx29");
    assert_eq!(FieldID::from_name("a,b".to_string()).id, "a\\x5cx2cb");
    assert_eq!(FieldID::from_name("plain".to_string()).id, "plain");
    assert_eq!(FieldID::new("x.y".to_string()).id, "x.y");
}

#[test]
fn field_rename_and_physical_type() {
    let f = Field::new("d".to_string(), DataType::Date);
    assert_eq!(f.to_physical().dtype, DataType::Int32);
    assert_eq!(f.rename("e".to_string()).name, "e");
    assert_eq!(Field::new("t".to_string(), DataType::Timestamp).to_physical().dtype, DataType::Int64);
}

#[test]
fn expression_names_and_columns() {
    let e = Arc::new(Expr::Function { name: "add".to_string(), inputs: vec![resolved_col("b".to_string()), lit(3)] });
    assert_eq!(e.name(), "b");
    assert_eq!(lit(1).name(), "literal");
    assert_eq!(get_required_columns(&e), vec!["b".to_string()]);
    let m = vec![("b".to_string(), resolved_col("z".to_string()).alias("b".to_string()))];
    let r = replace_columns_with_expressions(&e, &m);
    assert_eq!(get_required_columns(&r), vec!["z".to_string()]);
    assert_eq!(r.name(), "b");
}

#[test]
fn wrong_child_count_is_rejected() {
    let schema = Arc::new(vec![Field::new("a".to_string(), DataType::Int64)]);
    let info = InMemoryInfo::new(schema.clone(), "k".to_string(), 1, 8, 1);
    let src = Arc::new(LogicalPlan::Source(Source { output_schema: schema, source_info: Arc::new(SourceInfo::InMemory(info)) }));
    let filter = Arc::new(LogicalPlan::Filter { input: src.clone(), predicate: resolved_col("a".to_string()) });
    let r = LogicalPlan::with_new_arc_children(filter, vec![src.clone(), src]);
    assert_eq!(r, Err(DaftError::WrongChildCount { expected: 1, found: 2 }));
}

#[test]
fn placeholder_keeps_its_id() {
    let schema = Arc::new(vec![Field::new("a".to_string(), DataType::Utf8)]);
    let p = PlaceHolderInfo::new(schema, 7);
    assert_eq!(p.source_id, 7);
}
