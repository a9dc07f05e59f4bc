//! What can go wrong with a query.

use vstd::prelude::*;

use sqlparser::parser::ParserError;

use crate::catalog::error::{CatalogError, CatalogFault};
use crate::query::host::{HostOp, Question};
use crate::storage::shown::{show, shown};
use crate::storage::text::{
    lemma_strung_four, lemma_strung_two, string_together,
};
use crate::storage::types::Value;

verus! {

/// A query that cannot be answered. The texts are for people to read.
#[derive(Debug)]
pub enum QueryError {
    /// The text is not SQL.
    Parse(ParserError),
    /// The query asks something of values that their types do not allow.
    Type(String),
    /// A state that planning should have ruled out.
    Internal(String),
    /// SQL that the engine does not do.
    Unsupported(String),
    /// A catalog operation failed.
    Catalog(CatalogError),
    /// Stored bytes could not be decoded.
    Codec(String),
    /// The host has not answered this question yet.
    Host(HostOp),
}

/// What a [`QueryError`] is, mathematically.
pub enum Fault {
    Parse(ParserError),
    Type(Seq<char>),
    Internal(Seq<char>),
    Unsupported(Seq<char>),
    Catalog(CatalogFault),
    Codec(Seq<char>),
    Host(Question),
}

impl View for QueryError {
    type V = Fault;

    open spec fn view(&self) -> Fault {
        match self {
            QueryError::Parse(e) => Fault::Parse(*e),
            QueryError::Type(s) => Fault::Type(s@),
            QueryError::Internal(s) => Fault::Internal(s@),
            QueryError::Unsupported(s) => Fault::Unsupported(s@),
            QueryError::Catalog(e) => Fault::Catalog(e@),
            QueryError::Codec(s) => Fault::Codec(s@),
            QueryError::Host(op) => Fault::Host(op@),
        }
    }
}

impl QueryError {
    /// A type error with the given text.
    pub fn type_error(msg: &str) -> (r: QueryError)
        ensures
            r@ == Fault::Type(msg@),
    {
        QueryError::Type(msg.to_owned())
    }

    /// An internal error with the given text.
    pub fn internal(msg: &str) -> (r: QueryError)
        ensures
            r@ == Fault::Internal(msg@),
    {
        QueryError::Internal(msg.to_owned())
    }

    /// An unsupported-feature error with the given text.
    pub fn unsupported(msg: &str) -> (r: QueryError)
        ensures
            r@ == Fault::Unsupported(msg@),
    {
        QueryError::Unsupported(msg.to_owned())
    }

    /// A type error over a value: the value stands at the end of the text.
    pub fn type_over(what: &str, v: &Value) -> (r: QueryError)
        ensures
            r@ == Fault::Type(what@ + shown(v@)),
    {
        let t = show(v);
        let parts = vec![what, t.as_str()];
        proof {
            lemma_strung_two(parts@);
        }
        QueryError::Type(string_together(&parts))
    }

    /// A type error over two values: one stands at the end of the text, one before it.
    pub fn type_over_two(what: &str, a: &Value, between: &str, b: &Value) -> (r: QueryError)
        ensures
            r@ == Fault::Type(what@ + shown(a@) + between@ + shown(b@)),
    {
        let s = show(a);
        let t = show(b);
        let parts = vec![what, s.as_str(), between, t.as_str()];
        proof {
            lemma_strung_four(parts@);
        }
        QueryError::Type(string_together(&parts))
    }

    /// An internal error over a value: the value stands at the end of the text.
    pub fn internal_over(what: &str, v: &Value) -> (r: QueryError)
        ensures
            r@ == Fault::Internal(what@ + shown(v@)),
    {
        let t = show(v);
        let parts = vec![what, t.as_str()];
        proof {
            lemma_strung_two(parts@);
        }
        QueryError::Internal(string_together(&parts))
    }

    /// An internal error over two values.
    pub fn internal_over_two(what: &str, a: &Value, between: &str, b: &Value) -> (r: QueryError)
        ensures
            r@ == Fault::Internal(what@ + shown(a@) + between@ + shown(b@)),
    {
        let s = show(a);
        let t = show(b);
        let parts = vec![what, s.as_str(), between, t.as_str()];
        proof {
            lemma_strung_four(parts@);
        }
        QueryError::Internal(string_together(&parts))
    }

    /// A construct that the engine does not know: what it is, and its text.
    pub fn refused(what: &str, shown: &str) -> (r: QueryError)
        ensures
            r@ == Fault::Unsupported(what@ + shown@),
    {
        let parts = vec![what, shown];
        proof {
            lemma_strung_two(parts@);
        }
        QueryError::Unsupported(string_together(&parts))
    }
}

/// Whether an outcome is the one that a specification names: the same value, or the same fault.
pub open spec fn agrees<T: View>(r: Result<T, QueryError>, want: Result<T::V, Fault>) -> bool {
    match (r, want) {
        (Ok(v), Ok(w)) => v@ == w,
        (Err(e), Err(f)) => e@ == f,
        _ => false,
    }
}

} // verus!
