//! From SQL to logical plans: names are resolved, constructs are spelled out, constants are
//! evaluated.

pub mod ddl;
pub mod ddl_laws;
pub mod dml;
pub mod dml_laws;
pub mod expr;
pub mod expr_laws;
pub mod insert_laws;
pub mod literal;
pub mod names;
pub mod query;
pub mod query_laws;
pub mod scope;
pub mod select_laws;
pub mod settled;
pub mod vocabulary_laws;

use vstd::prelude::*;

use self::ddl::{bind_create_schema, bind_create_table, bound_create_schema, bound_create_table};
use self::dml::{bind_insert, bound_insert};
use self::query::{bind_query, bound_query};
use super::ast::SqlStatement;
use super::pass::Pass;
use crate::query::context::{ContextModel, QueryContext};
use crate::query::error::{agrees, Fault, QueryError};
use crate::query::logical_plan::{LogicalPlan, LogicalTree};
use crate::query::stages::{logical_trees, AnalyzedQuery, ReadQuery};

verus! {

/// The plan of a statement.
pub open spec fn bound_statement(stmt: SqlStatement, ctx: ContextModel) -> Result<
    LogicalTree,
    Fault,
> {
    match stmt {
        SqlStatement::Query(q) => bound_query(q, ctx),
        SqlStatement::Insert(i) => bound_insert(i, ctx),
        SqlStatement::CreateTable(c) => bound_create_table(c, ctx),
        SqlStatement::CreateSchema(c) => bound_create_schema(c, ctx),
        SqlStatement::Other(shown) => Err(Fault::Unsupported("statement: "@ + shown@)),
    }
}

/// The plans of the first `n` statements. All are bound against one state of the catalog.
pub open spec fn bound_statements(stmts: Seq<SqlStatement>, n: nat, ctx: ContextModel) -> Result<
    Seq<LogicalTree>,
    Fault,
>
    decreases n,
{
    if n == 0 || n > stmts.len() {
        Ok(Seq::empty())
    } else {
        match bound_statements(stmts, (n - 1) as nat, ctx) {
            Err(f) => Err(f),
            Ok(before) => match bound_statement(stmts[n - 1], ctx) {
                Err(f) => Err(f),
                Ok(tree) => Ok(before.push(tree)),
            },
        }
    }
}

proof fn lemma_statements_stop(stmts: Seq<SqlStatement>, m: nat, n: nat, ctx: ContextModel)
    requires
        m <= n <= stmts.len(),
        bound_statements(stmts, m, ctx) is Err,
    ensures
        bound_statements(stmts, n, ctx) == bound_statements(stmts, m, ctx),
    decreases n,
{
    if m < n {
        lemma_statements_stop(stmts, m, (n - 1) as nat, ctx);
    }
}

impl SqlStatement {
    /// The plan of this statement.
    pub fn bind(&self, ctx: &QueryContext) -> (r: Result<LogicalPlan, QueryError>)
        requires
            ctx@.wf(),
        ensures
            agrees(r, bound_statement(*self, ctx@)),
    {
        let root = match self {
            SqlStatement::Query(q) => bind_query(q, ctx),
            SqlStatement::Insert(i) => bind_insert(i, ctx),
            SqlStatement::CreateTable(c) => bind_create_table(c, ctx),
            SqlStatement::CreateSchema(c) => bind_create_schema(c, ctx),
            SqlStatement::Other(shown) => Err(QueryError::refused("statement: ", shown.as_str())),
        };
        match root {
            Ok(node) => Ok(LogicalPlan::new(node)),
            Err(e) => Err(e),
        }
    }
}

/// Binds every statement of a query.
pub struct Bind;

impl Pass for Bind {
    type Input = ReadQuery;

    type Output = AnalyzedQuery;

    fn name(&self) -> (r: &'static str)
        ensures
            r@ == "bind"@,
    {
        "bind"
    }

    fn run(&self, input: ReadQuery, ctx: &QueryContext) -> (r: Result<AnalyzedQuery, QueryError>)
        ensures
            match r {
                Ok(q) => {
                    &&& q.sql@ == input.sql@
                    &&& q.ast@ == input.ast@
                    &&& bound_statements(input.ast@, input.ast@.len(), ctx@) == Ok::<
                        Seq<LogicalTree>,
                        Fault,
                    >(logical_trees(q.logical@))
                },
                Err(e) => bound_statements(input.ast@, input.ast@.len(), ctx@) == Err::<
                    Seq<LogicalTree>,
                    Fault,
                >(e@),
            },
    {
        let mut logical: Vec<LogicalPlan> = Vec::new();
        let mut i: usize = 0;
        assert(logical_trees(logical@) =~= Seq::<LogicalTree>::empty());
        while i < input.ast.len()
            invariant
                i <= input.ast@.len(),
                ctx@.wf(),
                bound_statements(input.ast@, i as nat, ctx@) == Ok::<Seq<LogicalTree>, Fault>(
                    logical_trees(logical@),
                ),
            decreases input.ast@.len() - i,
        {
            let ghost before = logical_trees(logical@);
            match input.ast[i].bind(ctx) {
                Ok(plan) => {
                    logical.push(plan);
                    assert(logical_trees(logical@) =~= before.push(plan@));
                },
                Err(e) => {
                    proof {
                        lemma_statements_stop(
                            input.ast@,
                            (i + 1) as nat,
                            input.ast@.len(),
                            ctx@,
                        );
                    }
                    return Err(e);
                },
            }
            i = i + 1;
        }
        Ok(AnalyzedQuery { sql: input.sql, ast: input.ast, logical })
    }
}

} // verus!
