//! The passes from SQL text to physical plans.

use vstd::prelude::*;

use sqlparser::ast::Statement;
use sqlparser::parser::ParserError;

use super::binder::{bound_statements, Bind};
use super::lower::lowered;
use super::rule::{LogicalRule, PhysicalRule};
use crate::query::context::QueryContext;
use crate::query::error::{Fault, QueryError};
use crate::query::logical_plan::LogicalTree;
use crate::query::physical_plan::{PhysicalPlan, PlanTree};
use crate::query::stages::{
    logical_trees, plan_trees, AnalyzedQuery, LogicalQuery, ParsedQuery, PhysicalQuery, RawQuery,
    ReadQuery,
};
use crate::sql::{parse, statements_in};

verus! {

/// A step of planning: takes one stage, gives the next.
pub trait Pass {
    type Input;

    type Output;

    fn name(&self) -> (r: &'static str);

    fn run(&self, input: Self::Input, ctx: &QueryContext) -> (r: Result<Self::Output, QueryError>)
        requires
            ctx@.wf(),
    ;
}

/// Text to statements.
pub struct Parse;

impl Pass for Parse {
    type Input = RawQuery;

    type Output = ParsedQuery;

    fn name(&self) -> (r: &'static str)
        ensures
            r@ == "parse"@,
    {
        "parse"
    }

    fn run(&self, input: RawQuery, ctx: &QueryContext) -> (r: Result<ParsedQuery, QueryError>)
        ensures
            match r {
                Ok(q) => q.sql@ == input.sql@ && statements_in(input.sql@) == Ok::<
                    Seq<Statement>,
                    ParserError,
                >(q.ast@),
                Err(e) => statements_in(input.sql@) is Err && e@ == Fault::Parse(
                    statements_in(input.sql@)->Err_0,
                ),
            },
    {
        match parse(input.sql.as_str()) {
            Ok(ast) => Ok(ParsedQuery { sql: input.sql, ast }),
            Err(e) => Err(QueryError::Parse(e)),
        }
    }
}

/// Everything between reading and planning: binding.
pub struct Analyze;

impl Pass for Analyze {
    type Input = ReadQuery;

    type Output = AnalyzedQuery;

    fn name(&self) -> (r: &'static str)
        ensures
            r@ == "analyze"@,
    {
        "analyze"
    }

    fn run(&self, input: ReadQuery, ctx: &QueryContext) -> (r: Result<AnalyzedQuery, QueryError>)
        ensures
            match r {
                Ok(q) => {
                    &&& q.sql@ == input.sql@
                    &&& q.ast@ == input.ast@
                    &&& bound_statements(input.ast@, input.ast@.len(), ctx@) == Ok::<
                        Seq<LogicalTree>,
                        Fault,
                    >(logical_trees(q.logical@))
                },
                Err(e) => bound_statements(input.ast@, input.ast@.len(), ctx@) == Err::<
                    Seq<LogicalTree>,
                    Fault,
                >(e@),
            },
    {
        Bind.run(input, ctx)
    }
}

/// The bound plans as the next stage.
pub struct BuildLogical;

impl Pass for BuildLogical {
    type Input = AnalyzedQuery;

    type Output = LogicalQuery;

    fn name(&self) -> (r: &'static str)
        ensures
            r@ == "build_logical"@,
    {
        "build_logical"
    }

    fn run(&self, input: AnalyzedQuery, ctx: &QueryContext) -> (r: Result<LogicalQuery, QueryError>)
        ensures
            r == Ok::<LogicalQuery, QueryError>(
                LogicalQuery { sql: input.sql, ast: input.ast, logical: input.logical },
            ),
    {
        Ok(LogicalQuery { sql: input.sql, ast: input.ast, logical: input.logical })
    }
}

/// Holds the logical rewrite rules. None is applied.
pub struct OptimizeLogical {
    rules: Vec<Box<dyn LogicalRule>>,
}

impl OptimizeLogical {
    /// The rules that it holds.
    pub closed spec fn rules(self) -> Seq<Box<dyn LogicalRule>> {
        self.rules@
    }

    pub fn new(rules: Vec<Box<dyn LogicalRule>>) -> (r: Self)
        ensures
            r.rules() == rules@,
    {
        OptimizeLogical { rules }
    }
}

impl Default for OptimizeLogical {
    fn default() -> (r: Self)
        ensures
            r.rules().len() == 0,
    {
        OptimizeLogical::new(Vec::new())
    }
}

impl Pass for OptimizeLogical {
    type Input = LogicalQuery;

    type Output = LogicalQuery;

    fn name(&self) -> (r: &'static str)
        ensures
            r@ == "optimize_logical"@,
    {
        "optimize_logical"
    }

    fn run(&self, input: LogicalQuery, ctx: &QueryContext) -> (r: Result<LogicalQuery, QueryError>)
        ensures
            r == Ok::<LogicalQuery, QueryError>(input),
    {
        Ok(input)
    }
}

/// Holds the physical rewrite rules. None is applied.
pub struct OptimizePhysical {
    rules: Vec<Box<dyn PhysicalRule>>,
}

impl OptimizePhysical {
    /// The rules that it holds.
    pub closed spec fn rules(self) -> Seq<Box<dyn PhysicalRule>> {
        self.rules@
    }

    pub fn new(rules: Vec<Box<dyn PhysicalRule>>) -> (r: Self)
        ensures
            r.rules() == rules@,
    {
        OptimizePhysical { rules }
    }
}

impl Default for OptimizePhysical {
    fn default() -> (r: Self)
        ensures
            r.rules().len() == 0,
    {
        OptimizePhysical::new(Vec::new())
    }
}

impl Pass for OptimizePhysical {
    type Input = PhysicalQuery;

    type Output = PhysicalQuery;

    fn name(&self) -> (r: &'static str)
        ensures
            r@ == "optimize_physical"@,
    {
        "optimize_physical"
    }

    fn run(&self, input: PhysicalQuery, ctx: &QueryContext) -> (r: Result<
        PhysicalQuery,
        QueryError,
    >)
        ensures
            r == Ok::<PhysicalQuery, QueryError>(input),
    {
        Ok(input)
    }
}

/// A physical plan for every logical one.
pub open spec fn lowered_all(trees: Seq<LogicalTree>) -> Seq<PlanTree> {
    Seq::new(trees.len(), |i: int| lowered(trees[i]))
}

/// Chooses the algorithms.
pub struct Lower;

impl Pass for Lower {
    type Input = LogicalQuery;

    type Output = PhysicalQuery;

    fn name(&self) -> (r: &'static str)
        ensures
            r@ == "lower"@,
    {
        "lower"
    }

    fn run(&self, input: LogicalQuery, ctx: &QueryContext) -> (r: Result<PhysicalQuery, QueryError>)
        ensures
            r matches Ok(q) && q.sql@ == input.sql@ && q.ast@ == input.ast@ && q.logical@
                == input.logical@ && plan_trees(q.physical@) == lowered_all(
                logical_trees(input.logical@),
            ),
    {
        let mut physical: Vec<PhysicalPlan> = Vec::new();
        let mut i: usize = 0;
        while i < input.logical.len()
            invariant
                i <= input.logical@.len(),
                physical@.len() == i,
                forall|j: int|
                    0 <= j < i ==> (#[trigger] physical@[j])@ == lowered(input.logical@[j]@),
            decreases input.logical@.len() - i,
        {
            physical.push(PhysicalPlan::new(input.logical[i].root.lower()));
            i = i + 1;
        }
        assert(plan_trees(physical@) =~= lowered_all(logical_trees(input.logical@)));
        Ok(PhysicalQuery { sql: input.sql, ast: input.ast, logical: input.logical, physical })
    }
}

/// Plan a query: bind its statements, then choose the algorithms.
pub fn plan(input: ReadQuery, ctx: &QueryContext) -> (r: Result<PhysicalQuery, QueryError>)
    requires
        ctx@.wf(),
    ensures
        match (r, bound_statements(input.ast@, input.ast@.len(), ctx@)) {
            (Ok(q), Ok(trees)) => {
                &&& q.sql@ == input.sql@
                &&& q.ast@ == input.ast@
                &&& logical_trees(q.logical@) == trees
                &&& plan_trees(q.physical@) == lowered_all(trees)
            },
            (Err(e), Err(f)) => e@ == f,
            _ => false,
        },
{
    let analyzed = match Analyze.run(input, ctx) {
        Ok(q) => q,
        Err(e) => return Err(e),
    };
    let logical = match BuildLogical.run(analyzed, ctx) {
        Ok(q) => q,
        Err(e) => return Err(e),
    };
    let optimized = match OptimizeLogical::default().run(logical, ctx) {
        Ok(q) => q,
        Err(e) => return Err(e),
    };
    let physical = match Lower.run(optimized, ctx) {
        Ok(q) => q,
        Err(e) => return Err(e),
    };
    OptimizePhysical::default().run(physical, ctx)
}

} // verus!
