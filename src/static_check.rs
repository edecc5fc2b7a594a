//! Static syntax check of rendered SQL against the PostgreSQL dialect.
use vstd::prelude::*;
use sqlparser::dialect::PostgreSqlDialect;
use sqlparser::parser::Parser;

verus! {

/// Whether a text parses as a sequence of PostgreSQL statements.
pub uninterp spec fn postgres_parses(sql: Seq<char>) -> bool;

/// Relies on sqlparser's `Parser::parse_sql` with `PostgreSqlDialect`: it
/// returns `Ok` exactly when the text parses, which depends on the text alone;
/// the parser's message is handed back on failure.
#[verifier::external_body]
fn parse_postgres(sql: &str) -> (r: Result<(), String>)
    ensures
        r is Ok <==> postgres_parses(sql@),
{
    let dialect = PostgreSqlDialect {};
    Parser::parse_sql(&dialect, sql).map(|_| ()).map_err(|e| e.to_string())
}

/// The parser's complaint about a text.
#[derive(Debug, Clone)]
pub struct SqlSyntaxError {
    pub message: String,
}

/// Checks that `sql` parses; schema and semantics are not checked.
pub fn parse_ok(sql: &str) -> (r: Result<(), SqlSyntaxError>)
    ensures
        r is Ok <==> postgres_parses(sql@),
{
    match parse_postgres(sql) {
        Ok(()) => Ok(()),
        Err(message) => Err(SqlSyntaxError { message }),
    }
}

} // verus!
