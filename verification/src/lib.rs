//! Core of an embeddable SQL database engine: a typed value model with
//! coercion, arithmetic and JSON projection; an expression evaluator;
//! a storage contract with an in-memory reference backend; and the
//! fetch/filter/validate pipeline that turns a table scan into a
//! sequence of qualifying rows.

pub mod arith;
pub mod array_value;
pub mod ast;
pub mod ast_builder;
pub mod calendar;
pub mod decimal;
pub mod digits;
pub mod error;
pub mod evaluate;
pub mod fetch;
pub mod json;
pub mod literal;
pub mod store;
pub mod translate;
pub mod validate;
pub mod value;
