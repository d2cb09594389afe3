//! The errors the protocol layer reports.

use vstd::prelude::*;

verus! {

/// Why a request failed to parse. A failed parse is answered with a
/// `400 Bad Request` response rather than dropping the connection.
#[derive(Clone, Copy, Debug, PartialEq, Eq, Structural)]
pub enum ParseError {
    /// A query or form pair had no `=` between name and value.
    BadPair,
    /// A body declared as JSON was rejected by the JSON parser.
    BadJson,
}

} // verus!
