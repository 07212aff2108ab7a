//! The parsed statements that the engine consumes.
//!
//! A parser builds these values; the engine only reads them. Whatever the parser
//! understands and the engine does not is carried by a variant of its own (`Other`,
//! `Unsupported`), so that the engine can refuse it by name.

use vstd::prelude::*;

verus! {

/// A constant written in a statement.
#[derive(Debug, Clone, PartialEq, Eq)]
pub enum Value {
    /// A number, kept as it was written.
    Number(String),
    /// `'text'`
    SingleQuotedString(String),
    /// `"text"`
    DoubleQuotedString(String),
    /// `E'text'`
    EscapedStringLiteral(String),
    /// `B'text'`
    SingleQuotedByteStringLiteral(String),
    /// `B"text"`
    DoubleQuotedByteStringLiteral(String),
    /// `R'text'`
    RawStringLiteral(String),
    /// `N'text'`
    NationalStringLiteral(String),
    /// `X'text'`
    HexStringLiteral(String),
    /// `true` or `false`
    Boolean(bool),
    /// `NULL`
    Null,
}

/// The operator of a binary operation.
#[derive(Debug, Clone, Copy, PartialEq, Eq, Structural)]
pub enum BinaryOperator {
    Eq,
    Gt,
    Lt,
    GtEq,
    LtEq,
    And,
    Or,
    /// Any operator that the engine gives no meaning to.
    Other,
}

/// A node of an expression tree.
#[derive(Debug, PartialEq, Eq)]
pub enum Expr {
    /// A column, by name.
    Identifier(String),
    /// A constant.
    Value(Value),
    /// Two operands and what joins them.
    BinaryOp { left: Box<Expr>, op: BinaryOperator, right: Box<Expr> },
    /// Any node that the engine gives no meaning to.
    Unsupported,
}

/// One item of a select's projection list.
#[derive(Debug, PartialEq, Eq)]
pub enum SelectItem {
    /// An expression without an alias.
    UnnamedExpr(Expr),
    /// `expr AS alias`
    ExprWithAlias { expr: Expr, alias: String },
    /// `name.*`
    QualifiedWildcard(String),
    /// `*`
    Wildcard,
    /// `*` followed by options such as `EXCEPT`.
    WildcardWithOptions,
}

/// A source of rows in a `FROM` clause.
#[derive(Debug, Clone, PartialEq, Eq)]
pub enum TableFactor {
    /// A stored table, by name.
    Table { name: String },
    /// Anything else: a subquery, a function call, a nested join.
    Other,
}

/// A relation together with the relations joined to it.
#[derive(Debug, Clone, PartialEq, Eq)]
pub struct TableWithJoins {
    pub relation: TableFactor,
    pub joins: Vec<TableFactor>,
}

/// The body of a plain `SELECT`.
#[derive(Debug, PartialEq, Eq)]
pub struct Select {
    pub projection: Vec<SelectItem>,
    pub from: Vec<TableWithJoins>,
}

/// The body of a query.
#[derive(Debug, PartialEq, Eq)]
pub enum SetExpr {
    /// A plain `SELECT`.
    Select(Select),
    /// Anything else: a set operation, a parenthesised query, `VALUES`.
    Other,
}

/// A query.
#[derive(Debug, PartialEq, Eq)]
pub struct Query {
    pub body: SetExpr,
}

/// The declaration of one column in a `CREATE TABLE`.
#[derive(Debug, Clone, PartialEq, Eq)]
pub struct ColumnDef {
    pub name: String,
    /// The declared type. The engine stores every field as text and does not read it.
    pub data_type: String,
}

} // verus!
