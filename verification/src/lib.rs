//! A verified core for an SQL-like query tool over live machine state:
//! a LIKE-style pattern matcher, a predicate evaluator, a compound-condition
//! parser, a query grammar parser, a subquery placeholder rewriter, and a
//! filesystem traversal engine over snapshot trees.

pub mod condition;
pub mod evaluate;
pub mod executor;
pub mod models;
pub mod gui;
pub mod parser;
pub mod pattern;
pub mod size;
pub mod subquery;
pub mod template;
pub mod sort;
pub mod text;
pub mod traverse;
pub mod weburl;
