use vstd::prelude::*;
use crate::expression::{BinaryOperator, UnaryOperator};
use crate::types::LogicalType;

verus! {

/// A literal of a SQL statement.
pub enum AstValue {
    Number(i64),
    SingleQuotedString(String),
    Boolean(bool),
    Null,
}

/// A parsed SQL expression. Identifiers come in lower case.
pub enum Expr {
    Identifier(String),
    CompoundIdentifier(Vec<String>),
    Value(AstValue),
    BinaryOp { left: Box<Expr>, op: BinaryOperator, right: Box<Expr> },
    UnaryOp { op: UnaryOperator, expr: Box<Expr> },
    IsNull(Box<Expr>),
    Cast { expr: Box<Expr>, data_type: LogicalType },
    /// A function call; `count(*)` has no arguments.
    Function { name: String, args: Vec<Expr>, distinct: bool },
    Nested(Box<Expr>),
    /// Any form the binder does not take (a subquery, `IN`, `CASE`, ...).
    Unsupported,
}

pub enum SelectItem {
    UnnamedExpr(Expr),
    ExprWithAlias { expr: Expr, alias: String },
    Wildcard,
    QualifiedWildcard(Vec<String>),
}

pub enum TableFactor {
    Table { name: Vec<String>, alias: Option<String> },
    /// A subquery or table function in `FROM`.
    Derived,
}

pub enum JoinConstraint {
    On(Expr),
    Using(Vec<String>),
    Natural,
    NoConstraint,
}

pub enum JoinOperator {
    Inner(JoinConstraint),
    LeftOuter(JoinConstraint),
    RightOuter(JoinConstraint),
    FullOuter(JoinConstraint),
    CrossJoin,
    /// Semi, anti, apply and other joins.
    Other,
}

pub struct Join {
    pub relation: TableFactor,
    pub join_operator: JoinOperator,
}

pub struct TableWithJoins {
    pub relation: TableFactor,
    pub joins: Vec<Join>,
}

pub struct Select {
    pub distinct: bool,
    pub projection: Vec<SelectItem>,
    pub from: Vec<TableWithJoins>,
    pub selection: Option<Expr>,
    pub group_by: Vec<Expr>,
    pub having: Option<Expr>,
}

pub struct OrderByExpr {
    pub expr: Expr,
    pub asc: Option<bool>,
    pub nulls_first: Option<bool>,
}

pub enum SetExpr {
    Select(Box<Select>),
    Query(Box<Query>),
    /// `UNION`, `INTERSECT`, `VALUES` and the like.
    Other,
}

pub struct Query {
    pub with: bool,
    pub body: SetExpr,
    pub order_by: Vec<OrderByExpr>,
    pub limit: Option<Expr>,
    pub offset: Option<Expr>,
}

}
