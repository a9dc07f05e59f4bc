//! SQL text to statements.

use vstd::prelude::*;

use sqlparser::ast::Statement;
use sqlparser::dialect::PostgreSqlDialect;
use sqlparser::parser::{Parser, ParserError};

verus! {

/// The parser's own statement type. What is inside is the parser's.
#[verifier::external_type_specification]
#[verifier::external_body]
pub struct ExStatement(sqlparser::ast::Statement);

/// The parser's own error type.
#[verifier::external_type_specification]
#[verifier::external_body]
pub struct ExParserError(sqlparser::parser::ParserError);

/// The statements of a SQL text in the PostgreSQL dialect, or the complaint where it is none:
/// what `Parser::parse_sql` returns.
pub uninterp spec fn statements_in(sql: Seq<char>) -> Result<Seq<Statement>, ParserError>;

/// `sqlparser::parser::Parser::parse_sql` with the PostgreSQL dialect: the statements of a
/// text, or the error where the text is not SQL, named [`statements_in`].
#[verifier::external_body]
pub fn parse(sql: &str) -> (r: Result<Vec<Statement>, ParserError>)
    ensures
        match r {
            Ok(ast) => statements_in(sql@) == Ok::<Seq<Statement>, ParserError>(ast@),
            Err(e) => statements_in(sql@) == Err::<Seq<Statement>, ParserError>(e),
        },
{
    Parser::parse_sql(&PostgreSqlDialect {}, sql)
}

} // verus!
