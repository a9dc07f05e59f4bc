//! Scalar expressions. `BETWEEN`, `IN` and the simple `CASE` become the comparisons and
//! connectives they stand for; `SUBSTRING` and `TRIM` get their defaults filled in.

use vstd::prelude::*;

use super::literal::{
    bind_data_type, bind_typed_string, bind_value, literal_value, mapped_type, type_refusal,
    typed_value,
};
use super::names::{name_fault, unsupported_name};
use super::scope::{chars_or_none, resolved_column, ColumnModel, Scope};
use crate::query::error::{agrees, Fault, QueryError};
use crate::query::expression::{
    branches_of, lemma_call_view, lemma_case_view, terms_of, BinaryOperator, Expr, ScalarFunc, Term,
};
use crate::query::host::{Answer, Answers, Question};
use crate::query::planner::ast::{
    SqlBinaryOp, SqlExpr, SqlName, SqlRounding, SqlUnaryOp, TrimSide,
};
use crate::storage::text::{
    count_to_text, int_text, lemma_strung_five, lemma_strung_four, str_eq, string_together,
    to_uppercase, uppercased,
};
use crate::storage::types::{Datum, Value};

verus! {

/// The columns an expression sees, if it sees any.
pub type Visible = Option<Seq<ColumnModel>>;

/// The columns of an optional scope.
pub open spec fn visible(scope: Option<&Scope>) -> Visible {
    match scope {
        Some(s) => Some(s@),
        None => None,
    }
}

/// The operator of a binary expression.
pub open spec fn operator_of(op: SqlBinaryOp) -> Option<BinaryOperator> {
    match op {
        SqlBinaryOp::Eq => Some(BinaryOperator::Eq),
        SqlBinaryOp::NotEq => Some(BinaryOperator::NotEq),
        SqlBinaryOp::Lt => Some(BinaryOperator::Lt),
        SqlBinaryOp::LtEq => Some(BinaryOperator::LtEq),
        SqlBinaryOp::Gt => Some(BinaryOperator::Gt),
        SqlBinaryOp::GtEq => Some(BinaryOperator::GtEq),
        SqlBinaryOp::And => Some(BinaryOperator::And),
        SqlBinaryOp::Or => Some(BinaryOperator::Or),
        SqlBinaryOp::Concat => Some(BinaryOperator::Concat),
        SqlBinaryOp::Other(_) => None,
    }
}

/// What is said of an operator that is not done.
pub open spec fn operator_fault(op: SqlBinaryOp) -> Fault {
    Fault::Unsupported("binary op: "@ + op->Other_0@)
}

/// The column that a name means: without a scope there is none.
pub open spec fn column_term(
    scope: Visible,
    relation: Option<Seq<char>>,
    name: Seq<char>,
) -> Result<Term, Fault> {
    match scope {
        None => Err(Fault::Internal("no scope for column ref"@)),
        Some(columns) => match resolved_column(columns, relation, name) {
            Ok(i) => Ok(Term::Column(i)),
            Err(f) => Err(f),
        },
    }
}

/// A binary operation on two terms.
pub open spec fn binary_term(op: BinaryOperator, a: Term, b: Term) -> Term {
    Term::Binary(op, Box::new(a), Box::new(b))
}

/// A term, negated where asked.
pub open spec fn negated_term(t: Term, negated: bool) -> Term {
    if negated {
        Term::Not(Box::new(t))
    } else {
        t
    }
}

/// `x >= low AND x <= high`.
pub open spec fn between_term(x: Term, low: Term, high: Term) -> Term {
    binary_term(
        BinaryOperator::And,
        binary_term(BinaryOperator::GtEq, x, low),
        binary_term(BinaryOperator::LtEq, x, high),
    )
}

/// `x = a OR x = b OR ..`; false for an empty list.
pub open spec fn any_equal(x: Term, items: Seq<Term>) -> Term
    decreases items.len(),
{
    if items.len() == 0 {
        Term::Literal(Datum::Bool(false))
    } else if items.len() == 1 {
        binary_term(BinaryOperator::Eq, x, items[0])
    } else {
        binary_term(
            BinaryOperator::Or,
            any_equal(x, items.drop_last()),
            binary_term(BinaryOperator::Eq, x, items.last()),
        )
    }
}

/// A function called with the wrong number of arguments.
pub open spec fn arity_fault(name: Seq<char>, takes: Seq<char>, argc: nat) -> Fault {
    Fault::Type(name + " takes exactly "@ + takes + ", got "@ + int_text(argc as int))
}

/// An aggregate where there is no `GROUP BY`.
pub open spec fn aggregate_fault(name: Seq<char>) -> Fault {
    Fault::Unsupported(
        name + " as an aggregate (needs GROUP BY); "@ + name + "(a, b, …) is supported"@,
    )
}

/// The function that an upper-cased name and an argument count stand for. `MAX` and `MIN` of
/// two or more arguments are `GREATEST` and `LEAST`; of one they would be aggregates.
pub open spec fn function_of(name: Seq<char>, argc: nat) -> Result<ScalarFunc, Fault> {
    if name == "ABS"@ {
        if argc == 1 {
            Ok(ScalarFunc::Abs)
        } else {
            Err(arity_fault(name, "1 argument"@, argc))
        }
    } else if name == "GREATEST"@ {
        Ok(ScalarFunc::Greatest)
    } else if name == "LEAST"@ {
        Ok(ScalarFunc::Least)
    } else if name == "MAX"@ {
        if argc >= 2 {
            Ok(ScalarFunc::Greatest)
        } else {
            Err(aggregate_fault(name))
        }
    } else if name == "MIN"@ {
        if argc >= 2 {
            Ok(ScalarFunc::Least)
        } else {
            Err(aggregate_fault(name))
        }
    } else if name == "ROUND"@ {
        if argc == 1 {
            Ok(ScalarFunc::Round)
        } else {
            Err(arity_fault(name, "1 argument"@, argc))
        }
    } else if name == "COALESCE"@ {
        if argc >= 1 {
            Ok(ScalarFunc::Coalesce)
        } else {
            Err(Fault::Unsupported("function "@ + name))
        }
    } else if name == "NULLIF"@ {
        if argc == 2 {
            Ok(ScalarFunc::Nullif)
        } else {
            Err(arity_fault(name, "2 arguments"@, argc))
        }
    } else if name == "CONCAT"@ {
        Ok(ScalarFunc::Concat)
    } else if name == "LENGTH"@ {
        if argc == 1 {
            Ok(ScalarFunc::Length)
        } else {
            Err(arity_fault(name, "1 argument"@, argc))
        }
    } else if name == "CHAR_LENGTH"@ || name == "CHARACTER_LENGTH"@ {
        if argc == 1 {
            Ok(ScalarFunc::Length)
        } else {
            Err(Fault::Unsupported("function "@ + name))
        }
    } else if name == "REPEAT"@ {
        if argc == 2 {
            Ok(ScalarFunc::Repeat)
        } else {
            Err(arity_fault(name, "2 arguments"@, argc))
        }
    } else if name == "UPPER"@ {
        if argc == 1 {
            Ok(ScalarFunc::Upper)
        } else {
            Err(arity_fault(name, "1 argument"@, argc))
        }
    } else if name == "UCASE"@ {
        if argc == 1 {
            Ok(ScalarFunc::Upper)
        } else {
            Err(Fault::Unsupported("function "@ + name))
        }
    } else if name == "LOWER"@ {
        if argc == 1 {
            Ok(ScalarFunc::Lower)
        } else {
            Err(arity_fault(name, "1 argument"@, argc))
        }
    } else if name == "LCASE"@ {
        if argc == 1 {
            Ok(ScalarFunc::Lower)
        } else {
            Err(Fault::Unsupported("function "@ + name))
        }
    } else {
        Err(Fault::Unsupported("function "@ + name))
    }
}

/// The name of a function, upper-cased: a single plain identifier.
pub open spec fn call_name(name: SqlName) -> Option<Seq<char>> {
    if name.parts@.len() == 1 {
        match name.parts@[0] {
            Some(s) => Some(uppercased(s@)),
            None => None,
        }
    } else {
        None
    }
}

/// What is said of a name that is no function's.
pub open spec fn call_name_fault(name: SqlName) -> Fault {
    if name.parts@.len() == 1 {
        name_fault("function name: "@, name)
    } else {
        name_fault("qualified function name: "@, name)
    }
}

/// What is said of a call in a form that is not done.
pub open spec fn call_form_fault(name: Seq<char>, has_clause: bool, listed: bool) -> Fault {
    Fault::Unsupported(
        name + if has_clause {
            " with a clause"@
        } else if !listed {
            " call form"@
        } else {
            " with DISTINCT / ORDER BY"@
        },
    )
}

/// The function that trims a side.
pub open spec fn trim_function(side: Option<TrimSide>) -> ScalarFunc {
    match side {
        None => ScalarFunc::TrimBoth,
        Some(TrimSide::Both) => ScalarFunc::TrimBoth,
        Some(TrimSide::Leading) => ScalarFunc::TrimLeading,
        Some(TrimSide::Trailing) => ScalarFunc::TrimTrailing,
    }
}

/// The term of an expression that sees `scope`.
pub open spec fn bound(e: SqlExpr, scope: Visible, table: Seq<(Question, Answer)>) -> Result<
    Term,
    Fault,
>
    decreases e, 0nat,
{
    match e {
        SqlExpr::Literal(v) => match literal_value(v, table) {
            Ok(d) => Ok(Term::Literal(d)),
            Err(f) => Err(f),
        },
        SqlExpr::Column(name) => column_term(scope, None, name@),
        SqlExpr::Qualified { parts, shown } => if parts@.len() == 2 {
            column_term(scope, Some(parts@[0]@), parts@[1]@)
        } else {
            Err(Fault::Unsupported("expression: "@ + shown@))
        },
        SqlExpr::Binary { op, left, right } => match operator_of(op) {
            None => Err(operator_fault(op)),
            Some(o) => match bound(*left, scope, table) {
                Err(f) => Err(f),
                Ok(a) => match bound(*right, scope, table) {
                    Err(f) => Err(f),
                    Ok(b) => Ok(binary_term(o, a, b)),
                },
            },
        },
        SqlExpr::Unary { sign, expr } => match sign {
            SqlUnaryOp::Not => match bound(*expr, scope, table) {
                Ok(t) => Ok(Term::Not(Box::new(t))),
                Err(f) => Err(f),
            },
            SqlUnaryOp::Minus => match bound(*expr, scope, table) {
                Ok(t) => Ok(Term::Neg(Box::new(t))),
                Err(f) => Err(f),
            },
            SqlUnaryOp::Other(shown) => Err(Fault::Unsupported("unary op: "@ + shown@)),
        },
        SqlExpr::Nested(inner) => bound(*inner, scope, table),
        SqlExpr::Typed { ty, shown, value } => match typed_value(
            ty,
            shown@,
            chars_or_none(value),
            table,
        ) {
            Ok(d) => Ok(Term::Literal(d)),
            Err(f) => Err(f),
        },
        SqlExpr::Call { name, has_clause, listed, modified, args } => match call_name(name) {
            None => Err(call_name_fault(name)),
            Some(n) => if has_clause || !listed || modified {
                Err(call_form_fault(n, has_clause, listed))
            } else {
                match bound_args(args@, args@.len(), n, scope, table) {
                    Err(f) => Err(f),
                    Ok(ts) => match function_of(n, args@.len()) {
                        Err(f) => Err(f),
                        Ok(func) => Ok(Term::Call(func, ts)),
                    },
                }
            },
        },
        SqlExpr::Ceil { expr, to } => if to != SqlRounding::Whole {
            Err(Fault::Unsupported("CEIL/FLOOR with TO / scale"@))
        } else {
            match bound(*expr, scope, table) {
                Ok(t) => Ok(Term::Call(ScalarFunc::Ceil, seq![t])),
                Err(f) => Err(f),
            }
        },
        SqlExpr::Floor { expr, to } => if to != SqlRounding::Whole {
            Err(Fault::Unsupported("CEIL/FLOOR with TO / scale"@))
        } else {
            match bound(*expr, scope, table) {
                Ok(t) => Ok(Term::Call(ScalarFunc::Floor, seq![t])),
                Err(f) => Err(f),
            }
        },
        SqlExpr::IsNull(inner) => match bound(*inner, scope, table) {
            Ok(t) => Ok(Term::IsNull(Box::new(t), false)),
            Err(f) => Err(f),
        },
        SqlExpr::IsNotNull(inner) => match bound(*inner, scope, table) {
            Ok(t) => Ok(Term::IsNull(Box::new(t), true)),
            Err(f) => Err(f),
        },
        SqlExpr::Between { expr, negated, low, high } => match bound(*expr, scope, table) {
            Err(f) => Err(f),
            Ok(x) => match bound(*low, scope, table) {
                Err(f) => Err(f),
                Ok(l) => match bound(*high, scope, table) {
                    Err(f) => Err(f),
                    Ok(h) => Ok(negated_term(between_term(x, l, h), negated)),
                },
            },
        },
        SqlExpr::InList { expr, list, negated } => match bound(*expr, scope, table) {
            Err(f) => Err(f),
            Ok(x) => match bound_list(list@, list@.len(), scope, table) {
                Err(f) => Err(f),
                Ok(items) => Ok(negated_term(any_equal(x, items), negated)),
            },
        },
        SqlExpr::Like { expr, pattern, negated, any, escape } => if any || escape {
            Err(Fault::Unsupported("LIKE ANY / ESCAPE"@))
        } else {
            match bound(*expr, scope, table) {
                Err(f) => Err(f),
                Ok(x) => match bound(*pattern, scope, table) {
                    Err(f) => Err(f),
                    Ok(p) => Ok(Term::Like(Box::new(x), Box::new(p), negated)),
                },
            }
        },
        SqlExpr::Substring { expr, from, length } => match bound(*expr, scope, table) {
            Err(f) => Err(f),
            Ok(s) => match (match from {
                Some(x) => bound(*x, scope, table),
                None => Ok(Term::Literal(Datum::Int64(1))),
            }) {
                Err(f) => Err(f),
                Ok(a) => match (match length {
                    Some(x) => bound(*x, scope, table),
                    None => Ok(Term::Literal(Datum::Int64(i64::MAX))),
                }) {
                    Err(f) => Err(f),
                    Ok(n) => Ok(Term::Call(ScalarFunc::Substr, seq![s, a, n])),
                },
            },
        },
        SqlExpr::Trim { expr, side, what, listed } => if listed {
            Err(Fault::Unsupported("TRIM(value, characters)"@))
        } else {
            match bound(*expr, scope, table) {
                Err(f) => Err(f),
                Ok(s) => match (match what {
                    Some(x) => bound(*x, scope, table),
                    None => Ok(Term::Literal(Datum::Text(" "@))),
                }) {
                    Err(f) => Err(f),
                    Ok(c) => Ok(Term::Call(trim_function(side), seq![s, c])),
                },
            }
        },
        SqlExpr::Case { operand, branches, else_result } => match (match operand {
            Some(x) => match bound(*x, scope, table) {
                Ok(t) => Ok(Some(t)),
                Err(f) => Err(f),
            },
            None => Ok(None),
        }) {
            Err(f) => Err(f),
            Ok(op) => match bound_branches(branches@, branches@.len(), op, scope, table) {
                Err(f) => Err(f),
                Ok(bs) => match else_result {
                    None => Ok(Term::Case(bs, None)),
                    Some(x) => match bound(*x, scope, table) {
                        Ok(t) => Ok(Term::Case(bs, Some(Box::new(t)))),
                        Err(f) => Err(f),
                    },
                },
            },
        },
        SqlExpr::Cast { expr, ty } => match bound(*expr, scope, table) {
            Err(f) => Err(f),
            Ok(t) => match mapped_type(ty) {
                Some(target) => Ok(Term::Cast(Box::new(t), target)),
                None => Err(Fault::Unsupported(type_refusal(ty))),
            },
        },
        SqlExpr::Other(shown) => Err(Fault::Unsupported("expression: "@ + shown@)),
    }
}

/// The terms of the first `n` arguments.
pub open spec fn bound_args(
    args: Seq<Option<SqlExpr>>,
    n: nat,
    name: Seq<char>,
    scope: Visible,
    table: Seq<(Question, Answer)>,
) -> Result<Seq<Term>, Fault>
    decreases args, n,
{
    if n == 0 || n > args.len() {
        Ok(Seq::empty())
    } else {
        match bound_args(args, (n - 1) as nat, name, scope, table) {
            Err(f) => Err(f),
            Ok(ts) => match args[n - 1] {
                None => Err(Fault::Unsupported(name + " argument form"@)),
                Some(e) => match bound(e, scope, table) {
                    Err(f) => Err(f),
                    Ok(t) => Ok(ts.push(t)),
                },
            },
        }
    }
}

/// The terms of the first `n` expressions.
pub open spec fn bound_list(
    list: Seq<SqlExpr>,
    n: nat,
    scope: Visible,
    table: Seq<(Question, Answer)>,
) -> Result<Seq<Term>, Fault>
    decreases list, n,
{
    if n == 0 || n > list.len() {
        Ok(Seq::empty())
    } else {
        match bound_list(list, (n - 1) as nat, scope, table) {
            Err(f) => Err(f),
            Ok(ts) => match bound(list[n - 1], scope, table) {
                Err(f) => Err(f),
                Ok(t) => Ok(ts.push(t)),
            },
        }
    }
}

/// The first `n` branches of a `CASE`; with an operand, each condition is `operand = value`.
pub open spec fn bound_branches(
    branches: Seq<(SqlExpr, SqlExpr)>,
    n: nat,
    operand: Option<Term>,
    scope: Visible,
    table: Seq<(Question, Answer)>,
) -> Result<Seq<(Term, Term)>, Fault>
    decreases branches, n,
{
    if n == 0 || n > branches.len() {
        Ok(Seq::empty())
    } else {
        match bound_branches(branches, (n - 1) as nat, operand, scope, table) {
            Err(f) => Err(f),
            Ok(bs) => match bound(branches[n - 1].0, scope, table) {
                Err(f) => Err(f),
                Ok(c) => match bound(branches[n - 1].1, scope, table) {
                    Err(f) => Err(f),
                    Ok(v) => Ok(
                        bs.push(
                            (
                                match operand {
                                    Some(op) => binary_term(BinaryOperator::Eq, op, c),
                                    None => c,
                                },
                                v,
                            ),
                        ),
                    ),
                },
            },
        }
    }
}

// --- executable counterparts ---

/// The operator of a binary expression.
pub fn bind_binary_op(op: &SqlBinaryOp) -> (r: Result<BinaryOperator, QueryError>)
    ensures
        match r {
            Ok(o) => operator_of(*op) == Some(o),
            Err(e) => operator_of(*op) is None && e@ == operator_fault(*op),
        },
{
    match op {
        SqlBinaryOp::Eq => Ok(BinaryOperator::Eq),
        SqlBinaryOp::NotEq => Ok(BinaryOperator::NotEq),
        SqlBinaryOp::Lt => Ok(BinaryOperator::Lt),
        SqlBinaryOp::LtEq => Ok(BinaryOperator::LtEq),
        SqlBinaryOp::Gt => Ok(BinaryOperator::Gt),
        SqlBinaryOp::GtEq => Ok(BinaryOperator::GtEq),
        SqlBinaryOp::And => Ok(BinaryOperator::And),
        SqlBinaryOp::Or => Ok(BinaryOperator::Or),
        SqlBinaryOp::Concat => Ok(BinaryOperator::Concat),
        SqlBinaryOp::Other(shown) => Err(QueryError::refused("binary op: ", shown.as_str())),
    }
}

/// The column that a name means.
pub fn resolve_column(scope: Option<&Scope>, relation: Option<&str>, name: &str) -> (r: Result<
    Expr,
    QueryError,
>)
    ensures
        agrees(
            r,
            column_term(
                visible(scope),
                match relation {
                    Some(t) => Some(t@),
                    None => None,
                },
                name@,
            ),
        ),
{
    match scope {
        None => Err(QueryError::internal("no scope for column ref")),
        Some(s) => match s.resolve(relation, name) {
            Ok(i) => Ok(Expr::column(i)),
            Err(e) => Err(e),
        },
    }
}

/// A function called with the wrong number of arguments.
fn wrong_arity(name: &str, takes: &str, argc: usize) -> (r: QueryError)
    ensures
        r@ == arity_fault(name@, takes@, argc as nat),
{
    let got = count_to_text(argc);
    let parts = vec![name, " takes exactly ", takes, ", got ", got.as_str()];
    proof {
        lemma_strung_five(parts@);
    }
    QueryError::Type(string_together(&parts))
}

/// A function that is not done.
fn unknown_function(name: &str) -> (r: QueryError)
    ensures
        r@ == Fault::Unsupported("function "@ + name@),
{
    QueryError::refused("function ", name)
}

/// A form of call that is not done.
fn call_form(name: &str, what: &str) -> (r: QueryError)
    ensures
        r@ == Fault::Unsupported(name@ + what@),
{
    QueryError::refused(name, what)
}

/// An aggregate where there is no `GROUP BY`.
fn no_aggregate(name: &str) -> (r: QueryError)
    ensures
        r@ == aggregate_fault(name@),
{
    let parts = vec![name, " as an aggregate (needs GROUP BY); ", name, "(a, b, …) is supported"];
    proof {
        lemma_strung_four(parts@);
    }
    QueryError::Unsupported(string_together(&parts))
}

/// The function that an upper-cased name and an argument count stand for.
pub fn resolve_scalar_func(name: &str, argc: usize) -> (r: Result<ScalarFunc, QueryError>)
    ensures
        match r {
            Ok(func) => function_of(name@, argc as nat) == Ok::<ScalarFunc, Fault>(func),
            Err(e) => function_of(name@, argc as nat) == Err::<ScalarFunc, Fault>(e@),
        },
{
    if str_eq(name, "ABS") {
        if argc == 1 {
            Ok(ScalarFunc::Abs)
        } else {
            Err(wrong_arity(name, "1 argument", argc))
        }
    } else if str_eq(name, "GREATEST") {
        Ok(ScalarFunc::Greatest)
    } else if str_eq(name, "LEAST") {
        Ok(ScalarFunc::Least)
    } else if str_eq(name, "MAX") {
        if argc >= 2 {
            Ok(ScalarFunc::Greatest)
        } else {
            Err(no_aggregate(name))
        }
    } else if str_eq(name, "MIN") {
        if argc >= 2 {
            Ok(ScalarFunc::Least)
        } else {
            Err(no_aggregate(name))
        }
    } else if str_eq(name, "ROUND") {
        if argc == 1 {
            Ok(ScalarFunc::Round)
        } else {
            Err(wrong_arity(name, "1 argument", argc))
        }
    } else if str_eq(name, "COALESCE") {
        if argc >= 1 {
            Ok(ScalarFunc::Coalesce)
        } else {
            Err(unknown_function(name))
        }
    } else if str_eq(name, "NULLIF") {
        if argc == 2 {
            Ok(ScalarFunc::Nullif)
        } else {
            Err(wrong_arity(name, "2 arguments", argc))
        }
    } else if str_eq(name, "CONCAT") {
        Ok(ScalarFunc::Concat)
    } else if str_eq(name, "LENGTH") {
        if argc == 1 {
            Ok(ScalarFunc::Length)
        } else {
            Err(wrong_arity(name, "1 argument", argc))
        }
    } else if str_eq(name, "CHAR_LENGTH") || str_eq(name, "CHARACTER_LENGTH") {
        if argc == 1 {
            Ok(ScalarFunc::Length)
        } else {
            Err(unknown_function(name))
        }
    } else if str_eq(name, "REPEAT") {
        if argc == 2 {
            Ok(ScalarFunc::Repeat)
        } else {
            Err(wrong_arity(name, "2 arguments", argc))
        }
    } else if str_eq(name, "UPPER") {
        if argc == 1 {
            Ok(ScalarFunc::Upper)
        } else {
            Err(wrong_arity(name, "1 argument", argc))
        }
    } else if str_eq(name, "UCASE") {
        if argc == 1 {
            Ok(ScalarFunc::Upper)
        } else {
            Err(unknown_function(name))
        }
    } else if str_eq(name, "LOWER") {
        if argc == 1 {
            Ok(ScalarFunc::Lower)
        } else {
            Err(wrong_arity(name, "1 argument", argc))
        }
    } else if str_eq(name, "LCASE") {
        if argc == 1 {
            Ok(ScalarFunc::Lower)
        } else {
            Err(unknown_function(name))
        }
    } else {
        Err(unknown_function(name))
    }
}

/// The name of a function, upper-cased.
fn single_ident_upper(name: &SqlName) -> (r: Result<String, QueryError>)
    ensures
        match r {
            Ok(s) => call_name(*name) == Some(s@),
            Err(e) => call_name(*name) is None && e@ == call_name_fault(*name),
        },
{
    if name.parts.len() != 1 {
        return Err(unsupported_name("qualified function name: ", name));
    }
    match &name.parts[0] {
        Some(s) => Ok(to_uppercase(s.as_str())),
        None => Err(unsupported_name("function name: ", name)),
    }
}

/// A call of a function.
fn call(func: ScalarFunc, args: Vec<Expr>) -> (r: Expr)
    ensures
        r@ == Term::Call(func, terms_of(args@)),
{
    proof {
        lemma_call_view(func, args);
    }
    Expr::Call { func, args }
}

fn literal(value: Value) -> (r: Expr)
    ensures
        r@ == Term::Literal(value@),
{
    Expr::Literal { value }
}

impl SqlExpr {
    /// The expression with names resolved in `scope`.
    pub fn bind(&self, scope: Option<&Scope>, answers: &Answers) -> (r: Result<Expr, QueryError>)
        ensures
            agrees(r, bound(*self, visible(scope), answers@)),
        decreases self, 0nat,
    {
        match self {
            SqlExpr::Literal(v) => match bind_value(v, answers) {
                Ok(value) => Ok(literal(value)),
                Err(e) => Err(e),
            },
            SqlExpr::Column(name) => resolve_column(scope, None, name.as_str()),
            SqlExpr::Qualified { parts, shown } => if parts.len() == 2 {
                resolve_column(scope, Some(parts[0].as_str()), parts[1].as_str())
            } else {
                Err(QueryError::refused("expression: ", shown.as_str()))
            },
            SqlExpr::Binary { op, left, right } => {
                let op = match bind_binary_op(op) {
                    Ok(op) => op,
                    Err(e) => return Err(e),
                };
                let lhs = match left.bind(scope, answers) {
                    Ok(t) => t,
                    Err(e) => return Err(e),
                };
                match right.bind(scope, answers) {
                    Ok(rhs) => Ok(Expr::binary(op, lhs, rhs)),
                    Err(e) => Err(e),
                }
            },
            SqlExpr::Unary { sign, expr } => match sign {
                SqlUnaryOp::Not => match expr.bind(scope, answers) {
                    Ok(t) => Ok(Expr::negate(t)),
                    Err(e) => Err(e),
                },
                SqlUnaryOp::Minus => match expr.bind(scope, answers) {
                    Ok(t) => Ok(Expr::Neg { input: Box::new(t) }),
                    Err(e) => Err(e),
                },
                SqlUnaryOp::Other(shown) => Err(
                    QueryError::refused("unary op: ", shown.as_str()),
                ),
            },
            SqlExpr::Nested(inner) => inner.bind(scope, answers),
            SqlExpr::Typed { ty, shown, value } => match bind_typed_string(
                ty,
                shown.as_str(),
                value,
                answers,
            ) {
                Ok(value) => Ok(literal(value)),
                Err(e) => Err(e),
            },
            SqlExpr::Call { name, has_clause, listed, modified, args } => {
                let name = match single_ident_upper(name) {
                    Ok(name) => name,
                    Err(e) => return Err(e),
                };
                if *has_clause {
                    return Err(call_form(name.as_str(), " with a clause"));
                }
                if !*listed {
                    return Err(call_form(name.as_str(), " call form"));
                }
                if *modified {
                    return Err(call_form(name.as_str(), " with DISTINCT / ORDER BY"));
                }
                let count: usize = args.len();
                let bound_args = match bind_args(name.as_str(), args, scope, answers) {
                    Ok(ts) => ts,
                    Err(e) => return Err(e),
                };
                match resolve_scalar_func(name.as_str(), count) {
                    Ok(func) => Ok(call(func, bound_args)),
                    Err(e) => Err(e),
                }
            },
            SqlExpr::Ceil { expr, to } => bind_ceil_floor(
                self,
                expr,
                *to,
                ScalarFunc::Ceil,
                scope,
                answers,
            ),
            SqlExpr::Floor { expr, to } => bind_ceil_floor(
                self,
                expr,
                *to,
                ScalarFunc::Floor,
                scope,
                answers,
            ),
            SqlExpr::IsNull(inner) => match inner.bind(scope, answers) {
                Ok(t) => Ok(Expr::IsNull { expr: Box::new(t), negated: false }),
                Err(e) => Err(e),
            },
            SqlExpr::IsNotNull(inner) => match inner.bind(scope, answers) {
                Ok(t) => Ok(Expr::IsNull { expr: Box::new(t), negated: true }),
                Err(e) => Err(e),
            },
            SqlExpr::Between { expr, negated, low, high } => {
                let value = match expr.bind(scope, answers) {
                    Ok(t) => t,
                    Err(e) => return Err(e),
                };
                let low = match low.bind(scope, answers) {
                    Ok(t) => t,
                    Err(e) => return Err(e),
                };
                let high = match high.bind(scope, answers) {
                    Ok(t) => t,
                    Err(e) => return Err(e),
                };
                let ge = Expr::binary(BinaryOperator::GtEq, value.clone(), low);
                let le = Expr::binary(BinaryOperator::LtEq, value, high);
                let between = Expr::binary(BinaryOperator::And, ge, le);
                Ok(
                    if *negated {
                        Expr::negate(between)
                    } else {
                        between
                    },
                )
            },
            SqlExpr::InList { expr, list, negated } => {
                let value = match expr.bind(scope, answers) {
                    Ok(t) => t,
                    Err(e) => return Err(e),
                };
                let items = match bind_list(list, scope, answers) {
                    Ok(ts) => ts,
                    Err(e) => return Err(e),
                };
                let any = equals_any(&value, items);
                Ok(
                    if *negated {
                        Expr::negate(any)
                    } else {
                        any
                    },
                )
            },
            SqlExpr::Like { expr, pattern, negated, any, escape } => {
                if *any || *escape {
                    return Err(QueryError::unsupported("LIKE ANY / ESCAPE"));
                }
                let value = match expr.bind(scope, answers) {
                    Ok(t) => t,
                    Err(e) => return Err(e),
                };
                match pattern.bind(scope, answers) {
                    Ok(p) => Ok(
                        Expr::Like { expr: Box::new(value), pattern: Box::new(p), negated: *negated },
                    ),
                    Err(e) => Err(e),
                }
            },
            SqlExpr::Substring { expr, from, length } => {
                let s = match expr.bind(scope, answers) {
                    Ok(t) => t,
                    Err(e) => return Err(e),
                };
                let start = match from {
                    Some(x) => match x.bind(scope, answers) {
                        Ok(t) => t,
                        Err(e) => return Err(e),
                    },
                    None => literal(Value::Int64(1)),
                };
                let len = match length {
                    Some(x) => match x.bind(scope, answers) {
                        Ok(t) => t,
                        Err(e) => return Err(e),
                    },
                    None => literal(Value::Int64(i64::MAX)),
                };
                let args = vec![s, start, len];
                assert(terms_of(args@) =~= seq![s@, start@, len@]);
                Ok(call(ScalarFunc::Substr, args))
            },
            SqlExpr::Trim { expr, side, what, listed } => {
                if *listed {
                    return Err(QueryError::unsupported("TRIM(value, characters)"));
                }
                let func = match side {
                    None => ScalarFunc::TrimBoth,
                    Some(TrimSide::Both) => ScalarFunc::TrimBoth,
                    Some(TrimSide::Leading) => ScalarFunc::TrimLeading,
                    Some(TrimSide::Trailing) => ScalarFunc::TrimTrailing,
                };
                let s = match expr.bind(scope, answers) {
                    Ok(t) => t,
                    Err(e) => return Err(e),
                };
                let chars = match what {
                    Some(x) => match x.bind(scope, answers) {
                        Ok(t) => t,
                        Err(e) => return Err(e),
                    },
                    None => literal(Value::text(" ")),
                };
                let args = vec![s, chars];
                assert(terms_of(args@) =~= seq![s@, chars@]);
                Ok(call(func, args))
            },
            SqlExpr::Case { operand, branches, else_result } => {
                let op = match operand {
                    Some(x) => match x.bind(scope, answers) {
                        Ok(t) => Some(t),
                        Err(e) => return Err(e),
                    },
                    None => None,
                };
                let bs = match bind_branches(branches, &op, scope, answers) {
                    Ok(bs) => bs,
                    Err(e) => return Err(e),
                };
                let alternative = match else_result {
                    Some(x) => match x.bind(scope, answers) {
                        Ok(t) => Some(Box::new(t)),
                        Err(e) => return Err(e),
                    },
                    None => None,
                };
                proof {
                    lemma_case_view(bs, alternative);
                }
                Ok(Expr::Case { branches: bs, else_result: alternative })
            },
            SqlExpr::Cast { expr, ty } => {
                let input = match expr.bind(scope, answers) {
                    Ok(t) => t,
                    Err(e) => return Err(e),
                };
                match bind_data_type(ty) {
                    Ok(target) => Ok(Expr::Cast { input: Box::new(input), target }),
                    Err(e) => Err(e),
                }
            },
            SqlExpr::Other(shown) => Err(QueryError::refused("expression: ", shown.as_str())),
        }
    }
}

/// `CEIL` or `FLOOR` without a field or a scale.
fn bind_ceil_floor(
    whole: &SqlExpr,
    expr: &SqlExpr,
    to: SqlRounding,
    func: ScalarFunc,
    scope: Option<&Scope>,
    answers: &Answers,
) -> (r: Result<Expr, QueryError>)
    requires
        decreases_to!(*whole => *expr),
    ensures
        match (r, bound(*expr, visible(scope), answers@)) {
            (Err(e), Err(f)) => e@ == if to == SqlRounding::Whole {
                f
            } else {
                Fault::Unsupported("CEIL/FLOOR with TO / scale"@)
            },
            (Ok(t), Ok(x)) => to == SqlRounding::Whole && t@ == Term::Call(func, seq![x]),
            (Err(e), Ok(_)) => to != SqlRounding::Whole && e@ == Fault::Unsupported(
                "CEIL/FLOOR with TO / scale"@,
            ),
            _ => false,
        },
    decreases expr, 1nat,
{
    if to != SqlRounding::Whole {
        return Err(QueryError::unsupported("CEIL/FLOOR with TO / scale"));
    }
    match expr.bind(scope, answers) {
        Ok(t) => {
            let args = vec![t];
            assert(terms_of(args@) =~= seq![t@]);
            Ok(call(func, args))
        },
        Err(e) => Err(e),
    }
}

/// `value = a OR value = b OR ..`.
fn equals_any(value: &Expr, items: Vec<Expr>) -> (r: Expr)
    ensures
        r@ == any_equal(value@, terms_of(items@)),
{
    let ghost input = items@;
    let ghost terms = terms_of(items@);
    let mut acc: Option<Expr> = None;
    for item in it: items
        invariant
            it.seq() == input,
            terms == terms_of(input),
            match acc {
                None => it.index() == 0,
                Some(t) => it.index() > 0 && t@ == any_equal(
                    value@,
                    terms.take(it.index() as int),
                ),
            },
    {
        let ghost i = it.index() as int;
        assert(item == input[i]);
        let eq = Expr::binary(BinaryOperator::Eq, value.clone(), item);
        proof {
            assert(terms.take(i + 1).drop_last() =~= terms.take(i));
            assert(terms.take(i + 1).last() == terms[i]);
        }
        acc = Some(
            match acc {
                None => eq,
                Some(previous) => Expr::binary(BinaryOperator::Or, previous, eq),
            },
        );
    }
    assert(terms.take(terms.len() as int) =~= terms);
    match acc {
        Some(t) => t,
        None => literal(Value::Bool(false)),
    }
}

proof fn lemma_args_stop(
    args: Seq<Option<SqlExpr>>,
    m: nat,
    n: nat,
    name: Seq<char>,
    scope: Visible,
    table: Seq<(Question, Answer)>,
)
    requires
        m <= n <= args.len(),
        bound_args(args, m, name, scope, table) is Err,
    ensures
        bound_args(args, n, name, scope, table) == bound_args(args, m, name, scope, table),
    decreases n,
{
    if m < n {
        lemma_args_stop(args, m, (n - 1) as nat, name, scope, table);
    }
}

/// The arguments of a call.
fn bind_args(
    name: &str,
    args: &Vec<Option<SqlExpr>>,
    scope: Option<&Scope>,
    answers: &Answers,
) -> (r: Result<Vec<Expr>, QueryError>)
    ensures
        match r {
            Ok(ts) => bound_args(args@, args@.len(), name@, visible(scope), answers@) == Ok::<
                Seq<Term>,
                Fault,
            >(terms_of(ts@)),
            Err(e) => bound_args(args@, args@.len(), name@, visible(scope), answers@) == Err::<
                Seq<Term>,
                Fault,
            >(e@),
        },
    decreases args, 0nat,
{
    let mut out: Vec<Expr> = Vec::new();
    let mut i: usize = 0;
    assert(terms_of(out@) =~= Seq::<Term>::empty());
    while i < args.len()
        invariant
            i <= args@.len(),
            bound_args(args@, i as nat, name@, visible(scope), answers@) == Ok::<
                Seq<Term>,
                Fault,
            >(terms_of(out@)),
        decreases args@.len() - i,
    {
        assert(decreases_to!(*args => args@[i as int]));
        let ghost before = terms_of(out@);
        match &args[i] {
            None => {
                proof {
                    lemma_args_stop(
                        args@,
                        (i + 1) as nat,
                        args@.len(),
                        name@,
                        visible(scope),
                        answers@,
                    );
                }
                return Err(call_form(name, " argument form"));
            },
            Some(e) => match e.bind(scope, answers) {
                Ok(t) => {
                    out.push(t);
                    assert(terms_of(out@) =~= before.push(t@));
                },
                Err(error) => {
                    proof {
                        lemma_args_stop(
                            args@,
                            (i + 1) as nat,
                            args@.len(),
                            name@,
                            visible(scope),
                            answers@,
                        );
                    }
                    return Err(error);
                },
            },
        }
        i = i + 1;
    }
    Ok(out)
}

proof fn lemma_list_stop(
    list: Seq<SqlExpr>,
    m: nat,
    n: nat,
    scope: Visible,
    table: Seq<(Question, Answer)>,
)
    requires
        m <= n <= list.len(),
        bound_list(list, m, scope, table) is Err,
    ensures
        bound_list(list, n, scope, table) == bound_list(list, m, scope, table),
    decreases n,
{
    if m < n {
        lemma_list_stop(list, m, (n - 1) as nat, scope, table);
    }
}

/// The expressions of a list.
fn bind_list(list: &Vec<SqlExpr>, scope: Option<&Scope>, answers: &Answers) -> (r: Result<
    Vec<Expr>,
    QueryError,
>)
    ensures
        match r {
            Ok(ts) => bound_list(list@, list@.len(), visible(scope), answers@) == Ok::<
                Seq<Term>,
                Fault,
            >(terms_of(ts@)),
            Err(e) => bound_list(list@, list@.len(), visible(scope), answers@) == Err::<
                Seq<Term>,
                Fault,
            >(e@),
        },
    decreases list, 0nat,
{
    let mut out: Vec<Expr> = Vec::new();
    let mut i: usize = 0;
    assert(terms_of(out@) =~= Seq::<Term>::empty());
    while i < list.len()
        invariant
            i <= list@.len(),
            bound_list(list@, i as nat, visible(scope), answers@) == Ok::<Seq<Term>, Fault>(
                terms_of(out@),
            ),
        decreases list@.len() - i,
    {
        assert(decreases_to!(*list => list@[i as int]));
        let ghost before = terms_of(out@);
        match list[i].bind(scope, answers) {
            Ok(t) => {
                out.push(t);
                assert(terms_of(out@) =~= before.push(t@));
            },
            Err(error) => {
                proof {
                    lemma_list_stop(
                        list@,
                        (i + 1) as nat,
                        list@.len(),
                        visible(scope),
                        answers@,
                    );
                }
                return Err(error);
            },
        }
        i = i + 1;
    }
    Ok(out)
}

proof fn lemma_branches_stop(
    branches: Seq<(SqlExpr, SqlExpr)>,
    m: nat,
    n: nat,
    operand: Option<Term>,
    scope: Visible,
    table: Seq<(Question, Answer)>,
)
    requires
        m <= n <= branches.len(),
        bound_branches(branches, m, operand, scope, table) is Err,
    ensures
        bound_branches(branches, n, operand, scope, table) == bound_branches(
            branches,
            m,
            operand,
            scope,
            table,
        ),
    decreases n,
{
    if m < n {
        lemma_branches_stop(branches, m, (n - 1) as nat, operand, scope, table);
    }
}

/// The branches of a `CASE`.
fn bind_branches(
    branches: &Vec<(SqlExpr, SqlExpr)>,
    operand: &Option<Expr>,
    scope: Option<&Scope>,
    answers: &Answers,
) -> (r: Result<Vec<(Expr, Expr)>, QueryError>)
    ensures
        match r {
            Ok(bs) => bound_branches(
                branches@,
                branches@.len(),
                crate::query::expression::opt_term(*operand),
                visible(scope),
                answers@,
            ) == Ok::<Seq<(Term, Term)>, Fault>(branches_of(bs@)),
            Err(e) => bound_branches(
                branches@,
                branches@.len(),
                crate::query::expression::opt_term(*operand),
                visible(scope),
                answers@,
            ) == Err::<Seq<(Term, Term)>, Fault>(e@),
        },
    decreases branches, 0nat,
{
    let ghost op = crate::query::expression::opt_term(*operand);
    let mut out: Vec<(Expr, Expr)> = Vec::new();
    let mut i: usize = 0;
    assert(branches_of(out@) =~= Seq::<(Term, Term)>::empty());
    while i < branches.len()
        invariant
            i <= branches@.len(),
            op == crate::query::expression::opt_term(*operand),
            bound_branches(branches@, i as nat, op, visible(scope), answers@) == Ok::<
                Seq<(Term, Term)>,
                Fault,
            >(branches_of(out@)),
        decreases branches@.len() - i,
    {
        let ghost before = branches_of(out@);
        proof {
            assert(decreases_to!(*branches => branches@[i as int]));
            assert(decreases_to!(branches@[i as int] => branches@[i as int].0));
            assert(decreases_to!(branches@[i as int] => branches@[i as int].1));
        }
        let condition = match branches[i].0.bind(scope, answers) {
            Ok(t) => t,
            Err(error) => {
                proof {
                    lemma_branches_stop(
                        branches@,
                        (i + 1) as nat,
                        branches@.len(),
                        op,
                        visible(scope),
                        answers@,
                    );
                }
                return Err(error);
            },
        };
        let value = match branches[i].1.bind(scope, answers) {
            Ok(t) => t,
            Err(error) => {
                proof {
                    lemma_branches_stop(
                        branches@,
                        (i + 1) as nat,
                        branches@.len(),
                        op,
                        visible(scope),
                        answers@,
                    );
                }
                return Err(error);
            },
        };
        let condition = match operand {
            Some(x) => Expr::binary(BinaryOperator::Eq, x.clone(), condition),
            None => condition,
        };
        out.push((condition, value));
        assert(branches_of(out@) =~= before.push((condition@, value@)));
        i = i + 1;
    }
    Ok(out)
}

} // verus!
