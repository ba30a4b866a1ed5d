//! The size of the state table of the packet filter.

use vstd::prelude::*;
use crate::error::Error;
use crate::text::{first_after_marker, first_trimmed_after, texts};

verus! {

/// The command that describes the packet filter.
pub fn command() -> (command: &'static str)
    ensures
        command@ == "/sbin/pfctl -s info"@,
{
    "/sbin/pfctl -s info"
}

/// The number of states in use, as the output writes it: what stands behind
/// `current entries` in the first line that holds these words. Output
/// without such a line cannot be decoded.
pub fn get_states_used(lines: &Vec<String>) -> (states: Result<String, Error>)
    ensures
        match states {
            Ok(text) => first_after_marker(texts(lines@), "current entries"@) == Some(text@),
            Err(error) => {
                &&& first_after_marker(texts(lines@), "current entries"@) is None
                &&& error matches Error::StructuredDecode(detail)
                &&& detail@ == "could not read state table size"@
            },
        },
{
    match first_trimmed_after(lines, "current entries") {
        Some(text) => Ok(text),
        None => Err(Error::StructuredDecode("could not read state table size".to_owned())),
    }
}

} // verus!
