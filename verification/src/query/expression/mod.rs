//! Scalar expressions: trees that compute a value from an input row.
//!
//! Expressions are data, not closures, so that the planner can inspect and move them.

use vstd::prelude::*;

use crate::storage::types::{Datum, LogicalType, Value};

pub mod cast;
pub mod cast_laws;
pub mod compare;
pub mod eval;
pub mod function;
pub mod like;
pub mod settled;
pub mod value_laws;

verus! {

/// Binary operators.
#[derive(Debug, Clone, Copy, PartialEq, Eq, Structural)]
pub enum BinaryOperator {
    Eq,
    NotEq,
    Lt,
    LtEq,
    Gt,
    GtEq,
    And,
    Or,
    Concat,
}

/// A built-in scalar function.
#[derive(Debug, Clone, Copy, PartialEq, Eq, Structural)]
pub enum ScalarFunc {
    /// Absolute value of a number.
    Abs,
    /// Largest non-null argument.
    Greatest,
    /// Smallest non-null argument.
    Least,
    /// A number rounded up to a whole one.
    Ceil,
    /// A number rounded down to a whole one.
    Floor,
    /// A number rounded to the nearest whole one.
    Round,
    /// The first non-null argument.
    Coalesce,
    /// Number of characters in a text.
    Length,
    /// A text repeated.
    Repeat,
    /// A text in upper case.
    Upper,
    /// A text in lower case.
    Lower,
    /// Null if the two arguments are equal, else the first.
    Nullif,
    /// The arguments as text, joined; nulls skipped.
    Concat,
    /// A part of a text: start (from one) and length.
    Substr,
    /// A text without certain characters at both ends, at its start, or at its end.
    TrimBoth,
    TrimLeading,
    TrimTrailing,
}

/// A scalar expression.
#[derive(Debug)]
pub enum Expr {
    /// A column of the input row.
    Column { index: usize },
    /// A constant.
    Literal { value: Value },
    /// A binary operation.
    Binary { op: BinaryOperator, lhs: Box<Expr>, rhs: Box<Expr> },
    /// Logical negation.
    Not { input: Box<Expr> },
    /// A built-in function.
    Call { func: ScalarFunc, args: Vec<Expr> },
    /// `IS NULL` / `IS NOT NULL`.
    IsNull { expr: Box<Expr>, negated: bool },
    /// `LIKE` / `NOT LIKE`.
    Like { expr: Box<Expr>, pattern: Box<Expr>, negated: bool },
    /// Arithmetic negation.
    Neg { input: Box<Expr> },
    /// `CASE`: the first branch whose condition is true, else the alternative.
    Case { branches: Vec<(Expr, Expr)>, else_result: Option<Box<Expr>> },
    /// `CAST`.
    Cast { input: Box<Expr>, target: LogicalType },
}

/// What an [`Expr`] is, mathematically.
#[verifier::ext_equal]
pub enum Term {
    Column(nat),
    Literal(Datum),
    Binary(BinaryOperator, Box<Term>, Box<Term>),
    Not(Box<Term>),
    Call(ScalarFunc, Seq<Term>),
    IsNull(Box<Term>, bool),
    Like(Box<Term>, Box<Term>, bool),
    Neg(Box<Term>),
    Case(Seq<(Term, Term)>, Option<Box<Term>>),
    Cast(Box<Term>, LogicalType),
}

/// The term of an expression.
pub open spec fn term_of(e: Expr) -> Term
    decreases e, 0nat,
{
    match e {
        Expr::Column { index } => Term::Column(index as nat),
        Expr::Literal { value } => Term::Literal(value@),
        Expr::Binary { op, lhs, rhs } => Term::Binary(
            op,
            Box::new(term_of(*lhs)),
            Box::new(term_of(*rhs)),
        ),
        Expr::Not { input } => Term::Not(Box::new(term_of(*input))),
        Expr::Call { func, args } => Term::Call(func, first_terms(args@, args@.len())),
        Expr::IsNull { expr, negated } => Term::IsNull(Box::new(term_of(*expr)), negated),
        Expr::Like { expr, pattern, negated } => Term::Like(
            Box::new(term_of(*expr)),
            Box::new(term_of(*pattern)),
            negated,
        ),
        Expr::Neg { input } => Term::Neg(Box::new(term_of(*input))),
        Expr::Case { branches, else_result } => Term::Case(
            first_branches(branches@, branches@.len()),
            match else_result {
                Some(e) => Some(Box::new(term_of(*e))),
                None => None,
            },
        ),
        Expr::Cast { input, target } => Term::Cast(Box::new(term_of(*input)), target),
    }
}

/// The terms of the first `n` expressions.
pub open spec fn first_terms(exprs: Seq<Expr>, n: nat) -> Seq<Term>
    decreases exprs, n,
{
    if n == 0 || n > exprs.len() {
        Seq::empty()
    } else {
        first_terms(exprs, (n - 1) as nat).push(term_of(exprs[n - 1]))
    }
}

/// The terms of the first `n` branches.
pub open spec fn first_branches(branches: Seq<(Expr, Expr)>, n: nat) -> Seq<(Term, Term)>
    decreases branches, n,
{
    if n == 0 || n > branches.len() {
        Seq::empty()
    } else {
        first_branches(branches, (n - 1) as nat).push(
            (term_of(branches[n - 1].0), term_of(branches[n - 1].1)),
        )
    }
}

impl View for Expr {
    type V = Term;

    open spec fn view(&self) -> Term {
        term_of(*self)
    }
}

/// The term of an optional expression.
pub open spec fn opt_term(e: Option<Expr>) -> Option<Term> {
    match e {
        Some(e) => Some(e@),
        None => None,
    }
}

/// A copy of an optional expression.
pub fn clone_opt_expr(e: &Option<Expr>) -> (r: Option<Expr>)
    ensures
        opt_term(r) == opt_term(*e),
{
    match e {
        Some(e) => Some(e.clone()),
        None => None,
    }
}

/// The terms of a sequence of expressions.
pub open spec fn terms_of(exprs: Seq<Expr>) -> Seq<Term> {
    Seq::new(exprs.len(), |i: int| exprs[i]@)
}

/// The terms of a sequence of branches.
pub open spec fn branches_of(branches: Seq<(Expr, Expr)>) -> Seq<(Term, Term)> {
    Seq::new(branches.len(), |i: int| (branches[i].0@, branches[i].1@))
}

/// The term of an optional expression.
pub open spec fn else_of(e: Option<Box<Expr>>) -> Option<Box<Term>> {
    match e {
        Some(e) => Some(Box::new(term_of(*e))),
        None => None,
    }
}

proof fn lemma_first_terms(exprs: Seq<Expr>, n: nat)
    requires
        n <= exprs.len(),
    ensures
        first_terms(exprs, n) == terms_of(exprs).take(n as int),
    decreases n,
{
    if n > 0 {
        lemma_first_terms(exprs, (n - 1) as nat);
    }
    assert(first_terms(exprs, n) =~= terms_of(exprs).take(n as int));
}

proof fn lemma_first_branches(branches: Seq<(Expr, Expr)>, n: nat)
    requires
        n <= branches.len(),
    ensures
        first_branches(branches, n) == branches_of(branches).take(n as int),
    decreases n,
{
    if n > 0 {
        lemma_first_branches(branches, (n - 1) as nat);
    }
    assert(first_branches(branches, n) =~= branches_of(branches).take(n as int));
}

/// The term of a call is the call of its arguments' terms.
pub proof fn lemma_call_view(func: ScalarFunc, args: Vec<Expr>)
    ensures
        (Expr::Call { func, args })@ == Term::Call(func, terms_of(args@)),
{
    lemma_first_terms(args@, args@.len());
    assert(terms_of(args@).take(args@.len() as int) =~= terms_of(args@));
}

/// The term of a case is the case of its branches' terms.
pub proof fn lemma_case_view(branches: Vec<(Expr, Expr)>, else_result: Option<Box<Expr>>)
    ensures
        (Expr::Case { branches, else_result })@ == Term::Case(
            branches_of(branches@),
            else_of(else_result),
        ),
{
    lemma_first_branches(branches@, branches@.len());
    assert(branches_of(branches@).take(branches@.len() as int) =~= branches_of(branches@));
}

impl Clone for Expr {
    fn clone(&self) -> (r: Self)
        ensures
            r@ == self@,
        decreases self,
    {
        match self {
            Expr::Column { index } => Expr::Column { index: *index },
            Expr::Literal { value } => Expr::Literal { value: value.clone() },
            Expr::Binary { op, lhs, rhs } => {
                let l: Expr = (&**lhs).clone();
                let r: Expr = (&**rhs).clone();
                Expr::Binary { op: *op, lhs: Box::new(l), rhs: Box::new(r) }
            },
            Expr::Not { input } => {
                let e: Expr = (&**input).clone();
                Expr::Not { input: Box::new(e) }
            },
            Expr::Call { func, args } => {
                let out = clone_exprs(args);
                proof {
                    lemma_call_view(*func, out);
                    lemma_call_view(*func, *args);
                }
                Expr::Call { func: *func, args: out }
            },
            Expr::IsNull { expr, negated } => {
                let e: Expr = (&**expr).clone();
                Expr::IsNull { expr: Box::new(e), negated: *negated }
            },
            Expr::Like { expr, pattern, negated } => {
                let e: Expr = (&**expr).clone();
                let p: Expr = (&**pattern).clone();
                Expr::Like { expr: Box::new(e), pattern: Box::new(p), negated: *negated }
            },
            Expr::Neg { input } => {
                let e: Expr = (&**input).clone();
                Expr::Neg { input: Box::new(e) }
            },
            Expr::Case { branches, else_result } => {
                let out = clone_branches(branches);
                let alt: Option<Box<Expr>> = match else_result {
                    Some(e) => {
                        let c: Expr = (&**e).clone();
                        Some(Box::new(c))
                    },
                    None => None,
                };
                proof {
                    lemma_case_view(out, alt);
                    lemma_case_view(*branches, *else_result);
                }
                Expr::Case { branches: out, else_result: alt }
            },
            Expr::Cast { input, target } => {
                let e: Expr = (&**input).clone();
                Expr::Cast { input: Box::new(e), target: target.clone() }
            },
        }
    }
}

/// A copy of each expression.
pub fn clone_exprs(exprs: &Vec<Expr>) -> (r: Vec<Expr>)
    ensures
        terms_of(r@) == terms_of(exprs@),
    decreases exprs,
{
    let mut out: Vec<Expr> = Vec::new();
    let mut i: usize = 0;
    while i < exprs.len()
        invariant
            i <= exprs@.len(),
            out@.len() == i,
            forall|j: int| 0 <= j < i ==> (#[trigger] out@[j])@ == exprs@[j]@,
        decreases exprs@.len() - i,
    {
        assert(decreases_to!(*exprs => exprs@[i as int]));
        let e: Expr = exprs[i].clone();
        out.push(e);
        i = i + 1;
    }
    assert(terms_of(out@) =~= terms_of(exprs@));
    out
}

/// A copy of each branch.
fn clone_branches(branches: &Vec<(Expr, Expr)>) -> (r: Vec<(Expr, Expr)>)
    ensures
        branches_of(r@) == branches_of(branches@),
    decreases branches,
{
    let mut out: Vec<(Expr, Expr)> = Vec::new();
    let mut i: usize = 0;
    while i < branches.len()
        invariant
            i <= branches@.len(),
            out@.len() == i,
            forall|j: int|
                0 <= j < i ==> (#[trigger] out@[j]).0@ == branches@[j].0@ && out@[j].1@
                    == branches@[j].1@,
        decreases branches@.len() - i,
    {
        assert(decreases_to!(*branches => branches@[i as int]));
        let c: Expr = branches[i].0.clone();
        let e: Expr = branches[i].1.clone();
        out.push((c, e));
        i = i + 1;
    }
    assert(branches_of(out@) =~= branches_of(branches@));
    out
}

impl Expr {
    /// A reference to a column.
    pub fn column(index: usize) -> (r: Self)
        ensures
            r@ == Term::Column(index as nat),
    {
        Expr::Column { index }
    }

    /// A constant.
    pub fn lit<T: Into<Value>>(value: T) -> (r: Self)
        ensures
            r is Literal,
            call_ensures(T::into, (value,), r->value),
    {
        Expr::Literal { value: value.into() }
    }

    /// A binary operation.
    pub fn binary(op: BinaryOperator, lhs: Expr, rhs: Expr) -> (r: Self)
        ensures
            r@ == Term::Binary(op, Box::new(lhs@), Box::new(rhs@)),
    {
        Expr::Binary { op, lhs: Box::new(lhs), rhs: Box::new(rhs) }
    }

    /// Logical negation.
    pub fn negate(input: Expr) -> (r: Self)
        ensures
            r@ == Term::Not(Box::new(input@)),
    {
        Expr::Not { input: Box::new(input) }
    }
}

} // verus!
