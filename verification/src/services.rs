//! What the pages of the service decide, apart from rendering them.

use vstd::prelude::*;
use vstd::string::StringExecFns;

pub mod import_mods;
pub mod ratings;
pub mod settings;
pub mod users;

verus! {

/// The value of the header that sends the browser on to `to_url` at once.
pub fn header_redirect_to(to_url: &str) -> (value: String)
    ensures
        value@ == "0; url="@ + to_url@,
{
    let mut value = String::from_str("0; url=");
    value.append(to_url);
    value
}

} // verus!
