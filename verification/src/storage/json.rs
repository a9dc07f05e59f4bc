//! JSON documents, held as their compact text.

use vstd::prelude::*;

verus! {

/// The compact text of the JSON document that `bytes` spell, where they spell one: what
/// `serde_json::from_slice` followed by `Value`'s `to_string` returns.
pub uninterp spec fn json_compact(bytes: Seq<u8>) -> Option<Seq<char>>;

/// Whether two compact texts stand for equal documents: what `serde_json::Value`'s `==`
/// says of the documents parsed from them.
pub uninterp spec fn json_same(a: Seq<char>, b: Seq<char>) -> bool;

/// What `{:?}` prints of the `serde_json::Value` that a text parses to, or of the null document
/// where it does not parse.
pub uninterp spec fn json_debugged(text: Seq<char>) -> Seq<char>;

/// A JSON document. What the engine reads of it is its compact serialization.
#[derive(Debug, PartialEq)]
pub struct Json {
    text: String,
}

impl View for Json {
    type V = Seq<char>;

    closed spec fn view(&self) -> Seq<char> {
        self.text@
    }
}

impl Clone for Json {
    fn clone(&self) -> (r: Self)
        ensures
            r@ == self@,
    {
        Json { text: self.text.clone() }
    }
}

/// `serde_json::from_slice`, then `to_string` of the `serde_json::Value`: the document's
/// compact text, named [`json_compact`]; `None` where the bytes do not parse.
#[verifier::external_body]
fn compact_json(bytes: &[u8]) -> (r: Option<String>)
    ensures
        r is Some <==> json_compact(bytes@) is Some,
        r is Some ==> r->0@ == json_compact(bytes@)->0,
{
    match serde_json::from_slice::<serde_json::Value>(bytes) {
        Ok(v) => Some(v.to_string()),
        Err(_) => None,
    }
}

/// `serde_json::Value`'s `==` on the documents that two texts parse to, named [`json_same`].
#[verifier::external_body]
fn same_json(a: &str, b: &str) -> (r: bool)
    ensures
        r == json_same(a@, b@),
{
    serde_json::from_str::<serde_json::Value>(a).ok() == serde_json::from_str::<serde_json::Value>(b).ok()
}

/// The formatting with `{:?}` of the `serde_json::Value` that `serde_json::from_str` returns, or
/// of `Value`'s default, the null document, where the text does not parse. Named
/// [`json_debugged`].
#[verifier::external_body]
fn debug_json(text: &str) -> (r: String)
    ensures
        r@ == json_debugged(text@),
{
    format!("{:?}", serde_json::from_str::<serde_json::Value>(text).unwrap_or_default())
}

impl Json {
    /// Parse a document from its bytes.
    pub fn from_slice(bytes: &[u8]) -> (r: Option<Json>)
        ensures
            r is Some <==> json_compact(bytes@) is Some,
            r is Some ==> r->0@ == json_compact(bytes@)->0,
    {
        match compact_json(bytes) {
            Some(text) => Some(Json { text }),
            None => None,
        }
    }

    /// The document's compact text.
    pub fn as_str(&self) -> (r: &str)
        ensures
            r@ == self@,
    {
        self.text.as_str()
    }

    /// The document as it stands in an error's text.
    pub fn debugged(&self) -> (r: String)
        ensures
            r@ == json_debugged(self@),
    {
        debug_json(self.text.as_str())
    }

    /// Whether two documents are equal.
    pub fn same(&self, other: &Json) -> (r: bool)
        ensures
            r == json_same(self@, other@),
    {
        same_json(self.text.as_str(), other.text.as_str())
    }
}

} // verus!
