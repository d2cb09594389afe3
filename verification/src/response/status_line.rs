//! The first line of a response: protocol version, code, reason.

use vstd::prelude::*;
use crate::bytes::dec_bytes;
use crate::response::status::Status;

verus! {

/// A response status line.
pub struct StatusLine {
    pub status: Status,
    pub http_version: Vec<u8>,
}

/// The wire bytes of a status line: `<version> <code> <reason>`.
pub open spec fn status_line_bytes(version: Seq<u8>, code: u16, message: Seq<u8>) -> Seq<u8> {
    version + seq![32u8] + dec_bytes(code as int) + seq![32u8] + message
}

impl StatusLine {
    /// The wire bytes this status line serializes to.
    pub open spec fn wire_bytes(self) -> Seq<u8> {
        status_line_bytes(self.http_version@, self.status.code, self.status.message@)
    }
}

} // verus!
