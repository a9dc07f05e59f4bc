//! The text form of UUIDs.

use vstd::prelude::*;

use crate::storage::types::Uuid;

verus! {

/// The number of the UUID that a text names, where it names one: what `Uuid::parse_str`
/// returns.
pub uninterp spec fn uuid_parsed(s: Seq<char>) -> Option<u128>;

/// The hyphenated text of the UUID with a number: what `Uuid`'s `to_string` returns.
pub uninterp spec fn uuid_text(value: u128) -> Seq<char>;

/// `Uuid::parse_str`, named [`uuid_parsed`].
#[verifier::external_body]
fn parse_uuid(s: &str) -> (r: Option<u128>)
    ensures
        r == uuid_parsed(s@),
{
    match uuid::Uuid::parse_str(s) {
        Ok(u) => Some(u.as_u128()),
        Err(_) => None,
    }
}

/// `Uuid`'s `to_string`, named [`uuid_text`]. The text parses back to the UUID.
#[verifier::external_body]
fn show_uuid(value: u128) -> (r: String)
    ensures
        r@ == uuid_text(value),
        uuid_parsed(r@) == Some(value),
{
    uuid::Uuid::from_u128(value).to_string()
}

impl Uuid {
    /// Parse a UUID from its text.
    pub fn parse(s: &str) -> (r: Option<Uuid>)
        ensures
            r is Some <==> uuid_parsed(s@) is Some,
            r is Some ==> Some((r->0).value) == uuid_parsed(s@),
    {
        match parse_uuid(s) {
            Some(value) => Some(Uuid { value }),
            None => None,
        }
    }

    /// The UUID's text. Reading it back gives the UUID.
    pub fn to_text(&self) -> (r: String)
        ensures
            r@ == uuid_text(self.value),
            uuid_parsed(r@) == Some(self.value),
    {
        show_uuid(self.value)
    }
}

} // verus!
