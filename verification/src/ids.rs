//! Mod identifiers: UUIDs held as their 128-bit value.

use vstd::prelude::*;

verus! {

/// What `uuid::Uuid::try_parse` reads from `text`: the UUID's 128-bit value,
/// or `None` where it reports an error.
pub uninterp spec fn parsed_uuid(text: Seq<char>) -> Option<u128>;

/// Calls `uuid::Uuid::try_parse` and hands out the value of the UUID it
/// returns, as `Uuid::as_u128` gives it.
#[verifier::external_body]
pub(crate) fn try_parse_uuid(text: &str) -> (id: Option<u128>)
    ensures
        id == parsed_uuid(text@),
{
    match uuid::Uuid::try_parse(text) {
        Ok(id) => Some(id.as_u128()),
        Err(_) => None,
    }
}

/// Reads a mod identifier from its text form.
pub fn parse_mod_id(text: &str) -> (id: Option<u128>)
    ensures
        id == parsed_uuid(text@),
{
    try_parse_uuid(text)
}

} // verus!
