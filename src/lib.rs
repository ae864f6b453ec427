pub mod aggregate;
pub mod ast;
pub mod binder;
pub mod catalog;
pub mod column_pruning;
pub mod expression;
pub mod heuristic;
pub mod insert;
pub mod pattern;
pub mod planner;
pub mod select;
pub mod types;
