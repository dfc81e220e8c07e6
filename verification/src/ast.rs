//! The statement tree the parser hands over: the subset the core
//! inspects for validation and evaluation.

use vstd::prelude::*;

use crate::evaluate::{BinaryOperator, UnaryOperator};
use crate::literal::{AstLiteral, DataType};

verus! {

/// One column's static metadata.
#[derive(Debug, PartialEq)]
pub struct ColumnDef {
    pub name: String,
    pub data_type: DataType,
    pub nullable: bool,
}

/// One table's static metadata: its name and its ordered columns.
#[derive(Debug, PartialEq)]
pub struct Schema {
    pub table_name: String,
    pub column_defs: Vec<ColumnDef>,
}

/// An expression-tree node.
#[derive(Debug, PartialEq)]
pub enum Expr {
    Identifier(String),
    CompoundIdentifier(Vec<String>),
    Literal(AstLiteral),
    TypedString { data_type: DataType, value: String },
    BinaryOp { left: Box<Expr>, op: BinaryOperator, right: Box<Expr> },
    UnaryOp { op: UnaryOperator, expr: Box<Expr> },
    Between { expr: Box<Expr>, negated: bool, low: Box<Expr>, high: Box<Expr> },
    Nested(Box<Expr>),
}

/// One projected item of a select list.
#[derive(Debug, PartialEq)]
pub enum SelectItem {
    Expr { expr: Expr, label: String },
    Wildcard,
    QualifiedWildcard(String),
}

/// A table reference.
#[derive(Debug, PartialEq)]
pub enum TableFactor {
    Table { name: String, alias: Option<String>, index: Option<String> },
}

/// A join's constraint.
#[derive(Debug, PartialEq)]
pub enum JoinConstraint {
    On(Expr),
    Absent,
}

/// A join's operator.
#[derive(Debug, PartialEq)]
pub enum JoinOperator {
    Inner(JoinConstraint),
    LeftOuter(JoinConstraint),
}

/// How a join is executed.
#[derive(Debug, PartialEq)]
pub enum JoinExecutor {
    NestedLoop,
    Hash { key_expr: Expr, value_expr: Expr, where_clause: Option<Expr> },
}

/// One join.
#[derive(Debug, PartialEq)]
pub struct Join {
    pub relation: TableFactor,
    pub join_operator: JoinOperator,
    pub join_executor: JoinExecutor,
}

/// The `FROM` clause: a relation and its joins.
#[derive(Debug, PartialEq)]
pub struct TableWithJoins {
    pub relation: TableFactor,
    pub joins: Vec<Join>,
}

/// One ordering term.
#[derive(Debug, PartialEq)]
pub struct OrderByExpr {
    pub expr: Expr,
    pub asc: Option<bool>,
}

/// The shape of a select.
#[derive(Debug, PartialEq)]
pub struct Select {
    pub projection: Vec<SelectItem>,
    pub from: TableWithJoins,
    pub selection: Option<Expr>,
    pub group_by: Vec<Expr>,
    pub having: Option<Expr>,
}

/// A query body.
#[derive(Debug, PartialEq)]
pub enum SetExpr {
    Select(Box<Select>),
}

/// A full query.
#[derive(Debug, PartialEq)]
pub struct Query {
    pub body: SetExpr,
    pub order_by: Vec<OrderByExpr>,
    pub limit: Option<Expr>,
    pub offset: Option<Expr>,
}

/// A statement.
#[derive(Debug, PartialEq)]
pub enum Statement {
    Query(Query),
}

} // verus!
