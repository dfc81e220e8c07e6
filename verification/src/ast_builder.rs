//! A fluent convenience layer over the statement tree: nodes chain from a
//! table reference through joins, grouping, filters and limits, and build
//! into one select statement.

use vstd::prelude::*;

use crate::ast::{Expr, Join, JoinConstraint, JoinExecutor, JoinOperator, OrderByExpr, Query,
    Select, SelectItem, SetExpr, Statement, TableFactor, TableWithJoins};
use crate::error::{Error, TranslateError, ValueError};
use crate::evaluate::BinaryOperator;
use crate::literal::AstLiteral;

verus! {

/// An expression under construction: raw text parsed at build time, a
/// finished node, or a comparison of two nodes.
#[derive(Debug)]
pub enum ExprNode {
    Text(String),
    Ready(Box<Expr>),
    Binary(Box<ExprNode>, BinaryOperator, Box<ExprNode>),
}

impl ExprNode {
    /// The comparison `self > other`.
    pub fn gt<T: Into<ExprNode>>(self, other: T) -> ExprNode {
        ExprNode::Binary(Box::new(self), BinaryOperator::Gt, Box::new(other.into()))
    }
}

impl<'a> From<&'a str> for ExprNode {
    fn from(s: &'a str) -> ExprNode {
        ExprNode::Text(s.to_owned())
    }
}

impl<'a> vstd::std_specs::convert::FromSpecImpl<&'a str> for ExprNode {
    open spec fn obeys_from_spec() -> bool {
        false
    }

    open spec fn from_spec(s: &'a str) -> ExprNode {
        arbitrary()
    }
}

impl From<i64> for ExprNode {
    fn from(n: i64) -> ExprNode {
        ExprNode::Ready(Box::new(Expr::Literal(AstLiteral::Number(num_string(n)))))
    }
}

impl vstd::std_specs::convert::FromSpecImpl<i64> for ExprNode {
    open spec fn obeys_from_spec() -> bool {
        false
    }

    open spec fn from_spec(n: i64) -> ExprNode {
        arbitrary()
    }
}

/// A column reference node, possibly dotted.
pub fn col(name: &str) -> ExprNode {
    ExprNode::Text(name.to_owned())
}

/// A numeric literal node.
pub fn num(n: i64) -> ExprNode {
    ExprNode::Ready(Box::new(Expr::Literal(AstLiteral::Number(num_string(n)))))
}

fn num_string(n: i64) -> String {
    if n == i64::MIN {
        proof {
            reveal_strlit("-");
        }
        let mut s = "-".to_owned();
        s.append(crate::digits::u128_to_string(9223372036854775808u128).as_str());
        s
    } else {
        crate::digits::i128_to_string(n as i128)
    }
}

/// Finds the first space at or after `from`.
fn find_space(s: &str, from: usize) -> (r: usize)
    requires
        from <= s@.len(),
    ensures
        from <= r <= s@.len(),
{
    let n = s.unicode_len();
    let mut i = from;
    while i < n
        invariant
            from <= i <= n == s@.len(),
        decreases n - i,
    {
        if s.get_char(i) == ' ' {
            return i;
        }
        i = i + 1;
    }
    n
}

/// Parses one operand: a number literal, a dotted column reference, or a
/// bare column name.
fn parse_operand(s: &str, from: usize, to: usize) -> (r: Result<Expr, Error>)
    requires
        from <= to <= s@.len(),
{
    if from == to {
        return Err(Error::Translate(TranslateError::UnsupportedQuery));
    }
    if crate::digits::check_all_digits(s, from, to) {
        return Ok(
            Expr::Literal(AstLiteral::Number(s.substring_char(from, to).to_owned())),
        );
    }
    let piece = s.substring_char(from, to);
    let dot = crate::decimal::find_first_dot(piece, 0);
    let n = piece.unicode_len();
    if dot < n {
        let mut parts: Vec<String> = Vec::new();
        parts.push(piece.substring_char(0, dot).to_owned());
        parts.push(piece.substring_char(dot + 1, n).to_owned());
        Ok(Expr::CompoundIdentifier(parts))
    } else {
        Ok(Expr::Identifier(piece.to_owned()))
    }
}

/// Parses an operator token.
fn parse_op(s: &str, from: usize, to: usize) -> (r: Result<BinaryOperator, Error>)
    requires
        from <= to <= s@.len(),
{
    let w = to - from;
    if w == 1 {
        let c = s.get_char(from);
        if c == '=' {
            return Ok(BinaryOperator::Eq);
        }
        if c == '>' {
            return Ok(BinaryOperator::Gt);
        }
        if c == '<' {
            return Ok(BinaryOperator::Lt);
        }
    } else if w == 2 {
        let c1 = s.get_char(from);
        let c2 = s.get_char(from + 1);
        if c1 == '>' && c2 == '=' {
            return Ok(BinaryOperator::GtEq);
        }
        if c1 == '<' && c2 == '=' {
            return Ok(BinaryOperator::LtEq);
        }
        if c1 == '<' && c2 == '>' {
            return Ok(BinaryOperator::NotEq);
        }
    }
    Err(Error::Translate(TranslateError::UnsupportedQuery))
}

/// Parses an expression text: one operand, or `operand op operand` with
/// single spaces.
fn parse_expr_text(s: &str) -> (r: Result<Expr, Error>) {
    let n = s.unicode_len();
    let sp1 = find_space(s, 0);
    if sp1 == n {
        return parse_operand(s, 0, n);
    }
    let left = match parse_operand(s, 0, sp1) {
        Ok(e) => e,
        Err(e) => {
            return Err(e);
        },
    };
    if sp1 + 1 > n {
        return Err(Error::Translate(TranslateError::UnsupportedQuery));
    }
    let sp2 = find_space(s, sp1 + 1);
    if sp2 == n {
        return Err(Error::Translate(TranslateError::UnsupportedQuery));
    }
    let op = match parse_op(s, sp1 + 1, sp2) {
        Ok(o) => o,
        Err(e) => {
            return Err(e);
        },
    };
    if sp2 + 1 > n {
        return Err(Error::Translate(TranslateError::UnsupportedQuery));
    }
    let right = match parse_operand(s, sp2 + 1, n) {
        Ok(e) => e,
        Err(e) => {
            return Err(e);
        },
    };
    Ok(Expr::BinaryOp { left: Box::new(left), op, right: Box::new(right) })
}

/// Resolves an expression node into a finished expression.
fn build_expr(node: ExprNode) -> (r: Result<Expr, Error>)
    decreases node,
{
    match node {
        ExprNode::Text(s) => parse_expr_text(s.as_str()),
        ExprNode::Ready(e) => Ok(*e),
        ExprNode::Binary(l, op, r) => {
            let left = match build_expr(*l) {
                Ok(e) => e,
                Err(e) => {
                    return Err(e);
                },
            };
            let right = match build_expr(*r) {
                Ok(e) => e,
                Err(e) => {
                    return Err(e);
                },
            };
            Ok(Expr::BinaryOp { left: Box::new(left), op, right: Box::new(right) })
        },
    }
}

impl TryFrom<ExprNode> for Expr {
    type Error = Error;

    fn try_from(node: ExprNode) -> Result<Expr, Error> {
        build_expr(node)
    }
}

impl vstd::std_specs::convert::TryFromSpecImpl<ExprNode> for Expr {
    open spec fn obeys_try_from_spec() -> bool {
        false
    }

    open spec fn try_from_spec(node: ExprNode) -> Result<Expr, Error> {
        arbitrary()
    }
}

/// A projection list under construction.
#[derive(Debug)]
pub enum SelectItemList {
    Text(String),
    Items(Vec<SelectItem>),
}

impl<'a> From<&'a str> for SelectItemList {
    fn from(s: &'a str) -> SelectItemList {
        SelectItemList::Text(s.to_owned())
    }
}

impl<'a> vstd::std_specs::convert::FromSpecImpl<&'a str> for SelectItemList {
    open spec fn obeys_from_spec() -> bool {
        false
    }

    open spec fn from_spec(s: &'a str) -> SelectItemList {
        arbitrary()
    }
}

/// Resolves a projection list: `*` is the wildcard; anything else is one
/// projected expression.
fn build_items(list: SelectItemList) -> (r: Result<Vec<SelectItem>, Error>) {
    match list {
        SelectItemList::Items(v) => Ok(v),
        SelectItemList::Text(s) => {
            proof {
                reveal_strlit("*");
            }
            let mut out: Vec<SelectItem> = Vec::new();
            if crate::literal::str_eq(s.as_str(), "*") {
                out.push(SelectItem::Wildcard);
                return Ok(out);
            }
            let e = match parse_expr_text(s.as_str()) {
                Ok(e) => e,
                Err(er) => {
                    return Err(er);
                },
            };
            out.push(SelectItem::Expr { expr: e, label: String::new() });
            Ok(out)
        },
    }
}

impl TryFrom<SelectItemList> for Vec<SelectItem> {
    type Error = Error;

    fn try_from(list: SelectItemList) -> Result<Vec<SelectItem>, Error> {
        build_items(list)
    }
}

impl vstd::std_specs::convert::TryFromSpecImpl<SelectItemList> for Vec<SelectItem> {
    open spec fn obeys_try_from_spec() -> bool {
        false
    }

    open spec fn try_from_spec(list: SelectItemList) -> Result<Vec<SelectItem>, Error> {
        arbitrary()
    }
}

/// The data a chain of nodes accumulates before building.
#[derive(Debug)]
pub struct NodeData {
    pub projection: Vec<SelectItem>,
    pub relation: TableFactor,
    pub joins: Vec<Join>,
    pub selection: Option<Expr>,
    pub group_by: Vec<Expr>,
    pub having: Option<Expr>,
    pub order_by: Vec<OrderByExpr>,
    pub limit: Option<Expr>,
    pub offset: Option<Expr>,
}

/// What a chain of nodes prepares.
pub trait Prebuild: Sized {
    fn prebuild(self) -> Result<NodeData, Error>;
}

/// A table reference to start a chain from.
#[derive(Debug)]
pub struct TableNode {
    pub table_name: String,
}

/// Starts a chain from a table name.
pub fn table(name: &str) -> TableNode {
    TableNode { table_name: name.to_owned() }
}

/// A bare select over one table.
#[derive(Debug)]
pub struct SelectNode {
    pub table_name: String,
}

impl TableNode {
    pub fn select(self) -> SelectNode {
        SelectNode { table_name: self.table_name }
    }
}

/// Which join a chain adds.
#[derive(Debug)]
pub enum JoinKind {
    Inner,
    LeftOuter,
}

/// A join under construction.
#[derive(Debug)]
pub struct JoinNode {
    pub prev: SelectNode,
    pub name: String,
    pub alias: Option<String>,
    pub kind: JoinKind,
}

/// A join with an `ON` constraint.
#[derive(Debug)]
pub struct JoinConstraintNode {
    pub join: JoinNode,
    pub expr: ExprNode,
}

/// A join executed by hashing.
#[derive(Debug)]
pub struct HashJoinNode {
    pub join: JoinNode,
    pub key_expr: ExprNode,
    pub value_expr: ExprNode,
}

/// A grouping step.
#[derive(Debug)]
pub struct GroupByNode {
    pub prev: SelectNode,
    pub expr: ExprNode,
}

/// A grouping with a `HAVING` condition.
#[derive(Debug)]
pub struct HavingNode {
    pub prev: GroupByNode,
    pub expr: ExprNode,
}

/// A `WHERE` filter step.
#[derive(Debug)]
pub struct FilterNode {
    pub prev: SelectNode,
    pub expr: ExprNode,
}

/// An ordering step.
#[derive(Debug)]
pub struct OrderByNode {
    pub prev: SelectNode,
    pub expr: ExprNode,
}

impl SelectNode {
    pub fn group_by<T: Into<ExprNode>>(self, expr: T) -> GroupByNode {
        GroupByNode { prev: self, expr: expr.into() }
    }

    pub fn join(self, name: &str) -> JoinNode {
        JoinNode { prev: self, name: name.to_owned(), alias: None, kind: JoinKind::Inner }
    }

    pub fn join_as(self, name: &str, alias: &str) -> JoinNode {
        JoinNode {
            prev: self,
            name: name.to_owned(),
            alias: Some(alias.to_owned()),
            kind: JoinKind::Inner,
        }
    }

    pub fn left_join(self, name: &str) -> JoinNode {
        JoinNode { prev: self, name: name.to_owned(), alias: None, kind: JoinKind::LeftOuter }
    }

    pub fn left_join_as(self, name: &str, alias: &str) -> JoinNode {
        JoinNode {
            prev: self,
            name: name.to_owned(),
            alias: Some(alias.to_owned()),
            kind: JoinKind::LeftOuter,
        }
    }

    pub fn filter<T: Into<ExprNode>>(self, expr: T) -> FilterNode {
        FilterNode { prev: self, expr: expr.into() }
    }

    pub fn limit<T: Into<ExprNode>>(self, expr: T) -> LimitNode {
        LimitNode::new(self, expr)
    }
}

impl GroupByNode {
    pub fn having<T: Into<ExprNode>>(self, expr: T) -> HavingNode {
        HavingNode { prev: self, expr: expr.into() }
    }

    pub fn limit<T: Into<ExprNode>>(self, expr: T) -> LimitNode {
        LimitNode::new(self, expr)
    }
}

impl HavingNode {
    pub fn limit<T: Into<ExprNode>>(self, expr: T) -> LimitNode {
        LimitNode::new(self, expr)
    }
}

impl JoinNode {
    pub fn on<T: Into<ExprNode>>(self, expr: T) -> JoinConstraintNode {
        JoinConstraintNode { join: self, expr: expr.into() }
    }

    pub fn hash_executor<T: Into<ExprNode>, U: Into<ExprNode>>(
        self,
        key_expr: T,
        value_expr: U,
    ) -> HashJoinNode {
        HashJoinNode { join: self, key_expr: key_expr.into(), value_expr: value_expr.into() }
    }

    pub fn limit<T: Into<ExprNode>>(self, expr: T) -> LimitNode {
        LimitNode::new(self, expr)
    }
}

impl JoinConstraintNode {
    pub fn limit<T: Into<ExprNode>>(self, expr: T) -> LimitNode {
        LimitNode::new(self, expr)
    }
}

impl HashJoinNode {
    pub fn limit<T: Into<ExprNode>>(self, expr: T) -> LimitNode {
        LimitNode::new(self, expr)
    }
}

impl FilterNode {
    pub fn limit<T: Into<ExprNode>>(self, expr: T) -> LimitNode {
        LimitNode::new(self, expr)
    }
}

/// The node a limit step can follow.
#[derive(Debug)]
pub enum PrevNode {
    Select(SelectNode),
    GroupBy(GroupByNode),
    Having(HavingNode),
    Join(Box<JoinNode>),
    JoinConstraint(Box<JoinConstraintNode>),
    HashJoin(HashJoinNode),
    Filter(FilterNode),
    OrderBy(OrderByNode),
}

impl From<SelectNode> for PrevNode {
    fn from(node: SelectNode) -> Self {
        PrevNode::Select(node)
    }
}

impl vstd::std_specs::convert::FromSpecImpl<SelectNode> for PrevNode {
    open spec fn obeys_from_spec() -> bool {
        false
    }

    open spec fn from_spec(node: SelectNode) -> PrevNode {
        PrevNode::Select(node)
    }
}

impl From<GroupByNode> for PrevNode {
    fn from(node: GroupByNode) -> Self {
        PrevNode::GroupBy(node)
    }
}

impl vstd::std_specs::convert::FromSpecImpl<GroupByNode> for PrevNode {
    open spec fn obeys_from_spec() -> bool {
        false
    }

    open spec fn from_spec(node: GroupByNode) -> PrevNode {
        PrevNode::GroupBy(node)
    }
}

impl From<HavingNode> for PrevNode {
    fn from(node: HavingNode) -> Self {
        PrevNode::Having(node)
    }
}

impl vstd::std_specs::convert::FromSpecImpl<HavingNode> for PrevNode {
    open spec fn obeys_from_spec() -> bool {
        false
    }

    open spec fn from_spec(node: HavingNode) -> PrevNode {
        PrevNode::Having(node)
    }
}

impl From<JoinNode> for PrevNode {
    fn from(node: JoinNode) -> Self {
        PrevNode::Join(Box::new(node))
    }
}

impl vstd::std_specs::convert::FromSpecImpl<JoinNode> for PrevNode {
    open spec fn obeys_from_spec() -> bool {
        false
    }

    open spec fn from_spec(node: JoinNode) -> PrevNode {
        arbitrary()
    }
}

impl From<JoinConstraintNode> for PrevNode {
    fn from(node: JoinConstraintNode) -> Self {
        PrevNode::JoinConstraint(Box::new(node))
    }
}

impl vstd::std_specs::convert::FromSpecImpl<JoinConstraintNode> for PrevNode {
    open spec fn obeys_from_spec() -> bool {
        false
    }

    open spec fn from_spec(node: JoinConstraintNode) -> PrevNode {
        arbitrary()
    }
}

impl From<HashJoinNode> for PrevNode {
    fn from(node: HashJoinNode) -> Self {
        PrevNode::HashJoin(node)
    }
}

impl vstd::std_specs::convert::FromSpecImpl<HashJoinNode> for PrevNode {
    open spec fn obeys_from_spec() -> bool {
        false
    }

    open spec fn from_spec(node: HashJoinNode) -> PrevNode {
        PrevNode::HashJoin(node)
    }
}

impl From<FilterNode> for PrevNode {
    fn from(node: FilterNode) -> Self {
        PrevNode::Filter(node)
    }
}

impl vstd::std_specs::convert::FromSpecImpl<FilterNode> for PrevNode {
    open spec fn obeys_from_spec() -> bool {
        false
    }

    open spec fn from_spec(node: FilterNode) -> PrevNode {
        PrevNode::Filter(node)
    }
}

impl From<OrderByNode> for PrevNode {
    fn from(node: OrderByNode) -> Self {
        PrevNode::OrderBy(node)
    }
}

impl vstd::std_specs::convert::FromSpecImpl<OrderByNode> for PrevNode {
    open spec fn obeys_from_spec() -> bool {
        false
    }

    open spec fn from_spec(node: OrderByNode) -> PrevNode {
        PrevNode::OrderBy(node)
    }
}

impl Prebuild for SelectNode {
    fn prebuild(self) -> Result<NodeData, Error> {
        let mut projection: Vec<SelectItem> = Vec::new();
        projection.push(SelectItem::Wildcard);
        Ok(
            NodeData {
                projection,
                relation: TableFactor::Table { name: self.table_name, alias: None, index: None },
                joins: Vec::new(),
                selection: None,
                group_by: Vec::new(),
                having: None,
                order_by: Vec::new(),
                limit: None,
                offset: None,
            },
        )
    }
}

impl Prebuild for GroupByNode {
    fn prebuild(self) -> Result<NodeData, Error> {
        let mut data = match self.prev.prebuild() {
            Ok(d) => d,
            Err(e) => {
                return Err(e);
            },
        };
        let e = match build_expr(self.expr) {
            Ok(e) => e,
            Err(er) => {
                return Err(er);
            },
        };
        let mut group_by: Vec<Expr> = Vec::new();
        group_by.push(e);
        data.group_by = group_by;
        Ok(data)
    }
}

impl Prebuild for HavingNode {
    fn prebuild(self) -> Result<NodeData, Error> {
        let mut data = match self.prev.prebuild() {
            Ok(d) => d,
            Err(e) => {
                return Err(e);
            },
        };
        let e = match build_expr(self.expr) {
            Ok(e) => e,
            Err(er) => {
                return Err(er);
            },
        };
        data.having = Some(e);
        Ok(data)
    }
}

/// The join a join node prepares, with the given constraint and executor.
fn join_of(node: JoinNode, constraint: JoinConstraint, executor: JoinExecutor) -> (Join, SelectNode) {
    let JoinNode { prev, name, alias, kind } = node;
    let operator = match kind {
        JoinKind::Inner => JoinOperator::Inner(constraint),
        JoinKind::LeftOuter => JoinOperator::LeftOuter(constraint),
    };
    (
        Join {
            relation: TableFactor::Table { name, alias, index: None },
            join_operator: operator,
            join_executor: executor,
        },
        prev,
    )
}

impl Prebuild for JoinNode {
    fn prebuild(self) -> Result<NodeData, Error> {
        let (join, prev) = join_of(self, JoinConstraint::Absent, JoinExecutor::NestedLoop);
        let mut data = match prev.prebuild() {
            Ok(d) => d,
            Err(e) => {
                return Err(e);
            },
        };
        data.joins.push(join);
        Ok(data)
    }
}

impl Prebuild for JoinConstraintNode {
    fn prebuild(self) -> Result<NodeData, Error> {
        let JoinConstraintNode { join, expr } = self;
        let e = match build_expr(expr) {
            Ok(e) => e,
            Err(er) => {
                return Err(er);
            },
        };
        let (join, prev) = join_of(join, JoinConstraint::On(e), JoinExecutor::NestedLoop);
        let mut data = match prev.prebuild() {
            Ok(d) => d,
            Err(e) => {
                return Err(e);
            },
        };
        data.joins.push(join);
        Ok(data)
    }
}

impl Prebuild for HashJoinNode {
    fn prebuild(self) -> Result<NodeData, Error> {
        let HashJoinNode { join, key_expr, value_expr } = self;
        let k = match build_expr(key_expr) {
            Ok(e) => e,
            Err(er) => {
                return Err(er);
            },
        };
        let v = match build_expr(value_expr) {
            Ok(e) => e,
            Err(er) => {
                return Err(er);
            },
        };
        let (join, prev) = join_of(
            join,
            JoinConstraint::Absent,
            JoinExecutor::Hash { key_expr: k, value_expr: v, where_clause: None },
        );
        let mut data = match prev.prebuild() {
            Ok(d) => d,
            Err(e) => {
                return Err(e);
            },
        };
        data.joins.push(join);
        Ok(data)
    }
}

impl Prebuild for FilterNode {
    fn prebuild(self) -> Result<NodeData, Error> {
        let mut data = match self.prev.prebuild() {
            Ok(d) => d,
            Err(e) => {
                return Err(e);
            },
        };
        let e = match build_expr(self.expr) {
            Ok(e) => e,
            Err(er) => {
                return Err(er);
            },
        };
        data.selection = Some(e);
        Ok(data)
    }
}

impl Prebuild for OrderByNode {
    fn prebuild(self) -> Result<NodeData, Error> {
        let mut data = match self.prev.prebuild() {
            Ok(d) => d,
            Err(e) => {
                return Err(e);
            },
        };
        let e = match build_expr(self.expr) {
            Ok(e) => e,
            Err(er) => {
                return Err(er);
            },
        };
        data.order_by.push(OrderByExpr { expr: e, asc: None });
        Ok(data)
    }
}

impl Prebuild for PrevNode {
    fn prebuild(self) -> Result<NodeData, Error> {
        match self {
            Self::Select(node) => node.prebuild(),
            Self::GroupBy(node) => node.prebuild(),
            Self::Having(node) => node.prebuild(),
            Self::Join(node) => (*node).prebuild(),
            Self::JoinConstraint(node) => (*node).prebuild(),
            Self::HashJoin(node) => node.prebuild(),
            Self::Filter(node) => node.prebuild(),
            Self::OrderBy(node) => node.prebuild(),
        }
    }
}

/// A limit step.
#[derive(Debug)]
pub struct LimitNode {
    pub prev_node: PrevNode,
    pub expr: ExprNode,
}

/// A limit with an offset.
#[derive(Debug)]
pub struct LimitOffsetNode {
    pub limit: LimitNode,
    pub expr: ExprNode,
}

/// A projection step after a limit.
#[derive(Debug)]
pub struct ProjectNode {
    pub prev: LimitNode,
    pub items: SelectItemList,
}

impl LimitNode {
    pub fn new<N: Into<PrevNode>, T: Into<ExprNode>>(prev_node: N, expr: T) -> Self {
        Self { prev_node: prev_node.into(), expr: expr.into() }
    }

    pub fn offset<T: Into<ExprNode>>(self, expr: T) -> LimitOffsetNode {
        LimitOffsetNode { limit: self, expr: expr.into() }
    }

    pub fn project<T: Into<SelectItemList>>(self, select_items: T) -> ProjectNode {
        ProjectNode { prev: self, items: select_items.into() }
    }
}

impl Prebuild for LimitNode {
    fn prebuild(self) -> Result<NodeData, Error> {
        let mut data = match self.prev_node.prebuild() {
            Ok(d) => d,
            Err(e) => {
                return Err(e);
            },
        };
        let e = match build_expr(self.expr) {
            Ok(e) => e,
            Err(er) => {
                return Err(er);
            },
        };
        data.limit = Some(e);
        Ok(data)
    }
}

/// What a finished chain builds.
pub trait Build: Sized {
    fn build(self) -> Result<Statement, Error>;
}

/// Assembles the accumulated data into one select statement.
fn build_stmt(data: NodeData) -> Statement {
    let NodeData {
        projection,
        relation,
        joins,
        selection,
        group_by,
        having,
        order_by,
        limit,
        offset,
    } = data;
    Statement::Query(
        Query {
            body: SetExpr::Select(
                Box::new(
                    Select {
                        projection,
                        from: TableWithJoins { relation, joins },
                        selection,
                        group_by,
                        having,
                    },
                ),
            ),
            order_by,
            limit,
            offset,
        },
    )
}

impl Build for LimitNode {
    fn build(self) -> Result<Statement, Error> {
        match self.prebuild() {
            Ok(d) => Ok(build_stmt(d)),
            Err(e) => Err(e),
        }
    }
}

impl Build for LimitOffsetNode {
    fn build(self) -> Result<Statement, Error> {
        let LimitOffsetNode { limit, expr } = self;
        let mut data = match limit.prebuild() {
            Ok(d) => d,
            Err(e) => {
                return Err(e);
            },
        };
        let e = match build_expr(expr) {
            Ok(e) => e,
            Err(er) => {
                return Err(er);
            },
        };
        data.offset = Some(e);
        Ok(build_stmt(data))
    }
}

impl Build for ProjectNode {
    fn build(self) -> Result<Statement, Error> {
        let ProjectNode { prev, items } = self;
        let mut data = match prev.prebuild() {
            Ok(d) => d,
            Err(e) => {
                return Err(e);
            },
        };
        let its = match build_items(items) {
            Ok(v) => v,
            Err(er) => {
                return Err(er);
            },
        };
        data.projection = its;
        Ok(build_stmt(data))
    }
}

} // verus!
