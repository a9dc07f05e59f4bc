//! SQL statements in the form that the binder reads. What the binder has no use for is not
//! here; a construct that it does not know is an `Other` with the construct's text.

use vstd::prelude::*;

verus! {

/// A dotted name: its parts, and the name as it is written. A part that is no plain identifier
/// is `None`.
#[derive(Debug)]
pub struct SqlName {
    pub parts: Vec<Option<String>>,
    pub written: String,
}

/// A literal.
#[derive(Debug)]
pub enum SqlLiteral {
    /// A number as it is spelled.
    Number(String),
    Text(String),
    Bool(bool),
    Null,
    Other(String),
}

/// A binary operator.
#[derive(Debug)]
pub enum SqlBinaryOp {
    Eq,
    NotEq,
    Lt,
    LtEq,
    Gt,
    GtEq,
    And,
    Or,
    Concat,
    Other(String),
}

/// A unary operator.
#[derive(Debug)]
pub enum SqlUnaryOp {
    Not,
    Minus,
    Other(String),
}

/// What a time type says of a zone.
#[derive(Debug, Clone, Copy, PartialEq, Eq, Structural)]
pub enum SqlZone {
    Unsaid,
    /// `WITH TIME ZONE`.
    With,
    /// `WITHOUT TIME ZONE`.
    Without,
    /// `TIMESTAMPTZ` and `TIMETZ`.
    Tz,
}

/// A type as SQL spells it.
#[derive(Debug)]
pub enum SqlType {
    Bool,
    Boolean,
    SmallInt,
    Int2,
    Int,
    Integer,
    Int4,
    BigInt,
    Int8,
    Text,
    Varchar,
    Char,
    CharVarying,
    Bytea,
    Json,
    Jsonb,
    Date,
    Timestamp { zone: SqlZone },
    Time { zone: SqlZone },
    Real,
    Float4,
    Float32,
    DoublePrecision,
    Double,
    Float8,
    Float64,
    /// `FLOAT`, with its precision if given.
    Float { precision: Option<u64> },
    Numeric,
    Decimal,
    Dec,
    BigNumeric,
    BigDecimal,
    Uuid,
    Interval,
    /// An array, with its element type if given.
    Array(Option<Box<SqlType>>),
    Other(String),
}

/// What `CEIL` or `FLOOR` rounds to.
#[derive(Debug, Clone, Copy, PartialEq, Eq, Structural)]
pub enum SqlRounding {
    /// A whole number.
    Whole,
    /// A field of a date or time.
    Field,
    /// A number of places.
    Scale,
}

/// The side that `TRIM` works on.
#[derive(Debug, Clone, Copy, PartialEq, Eq, Structural)]
pub enum TrimSide {
    Both,
    Leading,
    Trailing,
}

/// A scalar expression.
#[derive(Debug)]
pub enum SqlExpr {
    Literal(SqlLiteral),
    Column(String),
    /// A dotted column name, and its text.
    Qualified { parts: Vec<String>, shown: String },
    Binary { op: SqlBinaryOp, left: Box<SqlExpr>, right: Box<SqlExpr> },
    Unary { sign: SqlUnaryOp, expr: Box<SqlExpr> },
    Nested(Box<SqlExpr>),
    /// `TYPE 'text'`, with the type's text; the value is `None` where it is no string.
    Typed { ty: SqlType, shown: String, value: Option<String> },
    /// A function call.
    Call {
        name: SqlName,
        /// Whether it has a `FILTER`, `OVER`, `WITHIN GROUP` or null-treatment clause.
        has_clause: bool,
        /// Whether the arguments are a list.
        listed: bool,
        /// Whether the list has `DISTINCT`, `ORDER BY` or the like.
        modified: bool,
        /// The arguments; one that is no plain expression is `None`.
        args: Vec<Option<SqlExpr>>,
    },
    Ceil { expr: Box<SqlExpr>, to: SqlRounding },
    Floor { expr: Box<SqlExpr>, to: SqlRounding },
    IsNull(Box<SqlExpr>),
    IsNotNull(Box<SqlExpr>),
    Between { expr: Box<SqlExpr>, negated: bool, low: Box<SqlExpr>, high: Box<SqlExpr> },
    InList { expr: Box<SqlExpr>, list: Vec<SqlExpr>, negated: bool },
    /// `LIKE`, with or without `ANY` and `ESCAPE`.
    Like { expr: Box<SqlExpr>, pattern: Box<SqlExpr>, negated: bool, any: bool, escape: bool },
    Substring { expr: Box<SqlExpr>, from: Option<Box<SqlExpr>>, length: Option<Box<SqlExpr>> },
    /// `TRIM`; `listed` where its characters are given as a list.
    Trim {
        expr: Box<SqlExpr>,
        side: Option<TrimSide>,
        what: Option<Box<SqlExpr>>,
        listed: bool,
    },
    Case {
        operand: Option<Box<SqlExpr>>,
        branches: Vec<(SqlExpr, SqlExpr)>,
        else_result: Option<Box<SqlExpr>>,
    },
    Cast { expr: Box<SqlExpr>, ty: SqlType },
    Other(String),
}

/// One term of `ORDER BY`.
#[derive(Debug)]
pub struct SqlOrderTerm {
    pub expr: SqlExpr,
    pub ascending: Option<bool>,
    pub nulls_first: Option<bool>,
}

/// `ORDER BY`.
#[derive(Debug)]
pub enum SqlOrderBy {
    Absent,
    Terms(Vec<SqlOrderTerm>),
    All,
}

/// `LIMIT` and `OFFSET`.
#[derive(Debug)]
pub enum SqlLimit {
    Absent,
    /// `LIMIT k OFFSET n`; `by` where there is a `LIMIT BY`.
    Standard { limit: Option<SqlExpr>, offset: Option<SqlExpr>, by: bool },
    /// `LIMIT n, k`.
    Comma,
}

/// One item of a select list.
#[derive(Debug)]
pub enum SqlItem {
    /// An expression, with or without an alias.
    Expr(SqlExpr),
    Wildcard,
    Other(String),
}

/// A relation of a `FROM` clause.
#[derive(Debug)]
pub enum SqlFactor {
    Table { name: SqlName, alias: Option<String> },
    Other(String),
}

/// A join operator as SQL spells it.
#[derive(Debug)]
pub enum SqlJoinKind {
    Join,
    Inner,
    Left,
    LeftOuter,
    Right,
    RightOuter,
    FullOuter,
    Cross,
    Other(String),
}

/// What a join matches on.
#[derive(Debug)]
pub enum SqlConstraint {
    Absent,
    On(SqlExpr),
    Other(String),
}

/// One join of a `FROM` item.
#[derive(Debug)]
pub struct SqlJoin {
    pub relation: SqlFactor,
    pub kind: SqlJoinKind,
    pub constraint: SqlConstraint,
}

/// One item of a `FROM` clause: a relation and the joins behind it.
#[derive(Debug)]
pub struct SqlFrom {
    pub relation: SqlFactor,
    pub joins: Vec<SqlJoin>,
}

/// A `SELECT`.
#[derive(Debug)]
pub struct SqlSelect {
    pub distinct: bool,
    pub grouped: bool,
    pub having: bool,
    pub from: Vec<SqlFrom>,
    pub selection: Option<SqlExpr>,
    pub projection: Vec<SqlItem>,
}

/// The body of a query.
#[derive(Debug)]
pub enum SqlBody {
    Select(SqlSelect),
    Other(String),
}

/// A query.
#[derive(Debug)]
pub struct SqlQuery {
    pub fetch: bool,
    pub order_by: SqlOrderBy,
    pub body: SqlBody,
    pub limit: SqlLimit,
}

/// Where the rows of an `INSERT` come from.
#[derive(Debug)]
pub enum SqlSource {
    Absent,
    Values(Vec<Vec<SqlExpr>>),
    Other,
}

/// An `INSERT`.
#[derive(Debug)]
pub struct SqlInsert {
    /// The target, if it is a table name.
    pub table: Option<SqlName>,
    pub columns: Vec<SqlName>,
    pub source: SqlSource,
}

/// An option of a column.
#[derive(Debug)]
pub enum SqlColumnOption {
    Null,
    NotNull,
    Default(SqlExpr),
    Other(String),
}

/// A column of a `CREATE TABLE`.
#[derive(Debug)]
pub struct SqlColumn {
    pub name: String,
    pub ty: SqlType,
    pub options: Vec<SqlColumnOption>,
}

/// A `CREATE TABLE`.
#[derive(Debug)]
pub struct SqlCreateTable {
    pub name: SqlName,
    pub columns: Vec<SqlColumn>,
    pub or_replace: bool,
    /// `AS SELECT`.
    pub from_query: bool,
    /// `LIKE` or `CLONE`.
    pub from_table: bool,
    /// Table constraints.
    pub constrained: bool,
}

/// A `CREATE SCHEMA`.
#[derive(Debug)]
pub struct SqlCreateSchema {
    /// The name, if it is a simple one.
    pub name: Option<SqlName>,
    pub if_not_exists: bool,
    /// `WITH`, `OPTIONS` or `DEFAULT COLLATE`.
    pub has_options: bool,
}

/// A statement.
#[derive(Debug)]
pub enum SqlStatement {
    Query(SqlQuery),
    Insert(SqlInsert),
    CreateTable(SqlCreateTable),
    CreateSchema(SqlCreateSchema),
    Other(String),
}

} // verus!
