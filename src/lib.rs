//! A tree-walk algebra for immutable node trees and a projection push-down
//! rewrite over logical query plans built on it.
//!
//! - `treenode`: the recursion signal, the `Transformed` envelope, the
//!   `TreeNode` primitives and the traversals derived from them, each with a
//!   specification of the walk it performs.
//! - `laws`: proved properties of those walks (identity, change flags,
//!   visit order, `Stop`, `Jump`, and errors among siblings).
//! - `expr`, `schema`, `plan`: expressions, columns and logical plans, with
//!   their output names and the columns each operator reads.
//! - `colset`: ordered sets of column names.
//! - `push_down_projection`: the column-pruning rule.

pub mod error;
pub mod treenode;
pub mod laws;
pub mod expr;
pub mod colset;
pub mod schema;
pub mod plan;
pub mod push_down_projection;
