//! Encoding-specific types.

use vstd::prelude::*;
use vstd::string::*;

verus! {

/// The error of an encoding. Writing to memory cannot fail, so this is kept
/// for sinks that can.
#[derive(Debug)]
pub struct Error;

impl Error {
    /// The text that describes this error.
    pub fn to_string(&self) -> (text: String)
        ensures
            text@ == "CBOR Encode Error"@,
    {
        String::from_str("CBOR Encode Error")
    }
}

} // verus!
