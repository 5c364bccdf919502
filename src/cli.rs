//! Values of the command line that the library itself reads.

use vstd::prelude::*;
use vstd::string::{StrSliceExecFns, StringExecFns};

verus! {

/// The IP version preferred for the reflexive-binding lookup.
#[derive(Debug, Clone, Copy, PartialEq, Eq, Structural)]
pub enum Versions {
    V4,
    V6,
}

/// The version that a command-line word names: "v4" or "v6".
pub open spec fn spec_version_of(s: Seq<char>) -> Option<Versions> {
    if s == seq!['v', '4'] {
        Some(Versions::V4)
    } else if s == seq!['v', '6'] {
        Some(Versions::V6)
    } else {
        None
    }
}

impl Versions {
    /// Reads "v4" or "v6"; any other word is refused with a message that
    /// quotes it.
    pub fn from_str(s: &str) -> (r: Result<Versions, String>)
        ensures
            r matches Ok(v) ==> spec_version_of(s@) == Some(v),
            r matches Err(m) ==> spec_version_of(s@) is None && m@ == "Invalid IP version: "@
                + s@,
    {
        if s.unicode_len() == 2 && s.get_char(0) == 'v' {
            let c = s.get_char(1);
            if c == '4' {
                assert(s@ =~= seq!['v', '4']);
                return Ok(Versions::V4);
            } else if c == '6' {
                assert(s@ =~= seq!['v', '6']);
                return Ok(Versions::V6);
            }
        }
        let mut message = String::from_str("Invalid IP version: ");
        message.append(s);
        Err(message)
    }
}

} // verus!
