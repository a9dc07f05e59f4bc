//! SQL text to statements.

use sqlparser::ast::Statement;
use strata_db::sql::parse;

#[test]
fn parses_select_one() {
    let stmts = parse("SELECT 1").unwrap();
    assert_eq!(stmts.len(), 1);
    assert!(matches!(stmts[0], Statement::Query(_)));
}

#[test]
fn parses_multiple_statements() {
    let stmts = parse("SELECT 1; SELECT 2").unwrap();
    assert_eq!(stmts.len(), 2);
}

#[test]
fn rejects_garbage() {
    assert!(parse("NOT SQL AT ALL ###").is_err());
}

#[test]
fn rejects_unterminated_string() {
    assert!(parse("SELECT 'oops").is_err());
}
