//! The closed set of status codes the server emits.

use vstd::prelude::*;
use vstd::slice::slice_to_vec;

verus! {

/// A status: numeric code and reason phrase. The set is closed; see
/// [`reason_of`] for the codes and their phrases.
#[derive(Debug)]
pub struct Status {
    pub code: u16,
    pub message: Vec<u8>,
}

/// Whether `code` is one of the codes the server knows.
pub open spec fn known_code(code: u16) -> bool {
    code == 200 || code == 301 || code == 302 || code == 400 || code == 401 || code == 403
        || code == 404 || code == 500 || code == 503
}

/// The code a status is built from: unknown codes map to 500.
pub open spec fn canon_code(code: u16) -> u16 {
    if known_code(code) {
        code
    } else {
        500
    }
}

/// The reason phrase of a known code.
pub open spec fn reason_of(code: u16) -> Seq<u8> {
    if code == 200 {
        seq![79u8, 75u8]
    } else if code == 301 {
        seq![77u8, 111u8, 118u8, 101u8, 100u8, 32u8, 80u8, 101u8, 114u8, 109u8, 97u8, 110u8,
            101u8, 110u8, 116u8, 108u8, 121u8]
    } else if code == 302 {
        seq![70u8, 111u8, 117u8, 110u8, 100u8]
    } else if code == 400 {
        seq![66u8, 97u8, 100u8, 32u8, 82u8, 101u8, 113u8, 117u8, 101u8, 115u8, 116u8]
    } else if code == 401 {
        seq![85u8, 110u8, 97u8, 117u8, 116u8, 104u8, 111u8, 114u8, 105u8, 122u8, 101u8, 100u8]
    } else if code == 403 {
        seq![70u8, 111u8, 114u8, 98u8, 105u8, 100u8, 100u8, 101u8, 110u8]
    } else if code == 404 {
        seq![78u8, 111u8, 116u8, 32u8, 70u8, 111u8, 117u8, 110u8, 100u8]
    } else if code == 503 {
        seq![83u8, 101u8, 114u8, 118u8, 105u8, 99u8, 101u8, 32u8, 85u8, 110u8, 97u8, 118u8,
            97u8, 105u8, 108u8, 97u8, 98u8, 108u8, 101u8]
    } else {
        seq![73u8, 110u8, 116u8, 101u8, 114u8, 110u8, 97u8, 108u8, 32u8, 83u8, 101u8, 114u8,
            118u8, 101u8, 114u8, 32u8, 69u8, 114u8, 114u8, 111u8, 114u8]
    }
}

/// A status is well formed when its code is canonical and its phrase is
/// the code's phrase.
pub open spec fn status_wf(s: Status) -> bool {
    &&& known_code(s.code)
    &&& s.message@ == reason_of(s.code)
}

impl Status {
    /// `200 OK`.
    pub fn ok() -> (r: Status)
        ensures
            r.code == 200 && r.message@ == reason_of(200) && status_wf(r),
    {
        let a: [u8; 2] = [79, 75];
        let r = Status { code: 200, message: slice_to_vec(a.as_slice()) };
        proof {
            assert(r.message@ =~= reason_of(200));
        }
        r
    }

    /// `301 Moved Permanently`.
    pub fn moved_permanently() -> (r: Status)
        ensures
            r.code == 301 && r.message@ == reason_of(301) && status_wf(r),
    {
        let a: [u8; 17] = [77, 111, 118, 101, 100, 32, 80, 101, 114, 109, 97, 110, 101, 110, 116,
            108, 121];
        let r = Status { code: 301, message: slice_to_vec(a.as_slice()) };
        proof {
            assert(r.message@ =~= reason_of(301));
        }
        r
    }

    /// `302 Found`.
    pub fn found() -> (r: Status)
        ensures
            r.code == 302 && r.message@ == reason_of(302) && status_wf(r),
    {
        let a: [u8; 5] = [70, 111, 117, 110, 100];
        let r = Status { code: 302, message: slice_to_vec(a.as_slice()) };
        proof {
            assert(r.message@ =~= reason_of(302));
        }
        r
    }

    /// `400 Bad Request`.
    pub fn bad_request() -> (r: Status)
        ensures
            r.code == 400 && r.message@ == reason_of(400) && status_wf(r),
    {
        let a: [u8; 11] = [66, 97, 100, 32, 82, 101, 113, 117, 101, 115, 116];
        let r = Status { code: 400, message: slice_to_vec(a.as_slice()) };
        proof {
            assert(r.message@ =~= reason_of(400));
        }
        r
    }

    /// `401 Unauthorized`.
    pub fn unauthorized() -> (r: Status)
        ensures
            r.code == 401 && r.message@ == reason_of(401) && status_wf(r),
    {
        let a: [u8; 12] = [85, 110, 97, 117, 116, 104, 111, 114, 105, 122, 101, 100];
        let r = Status { code: 401, message: slice_to_vec(a.as_slice()) };
        proof {
            assert(r.message@ =~= reason_of(401));
        }
        r
    }

    /// `403 Forbidden`.
    pub fn forbidden() -> (r: Status)
        ensures
            r.code == 403 && r.message@ == reason_of(403) && status_wf(r),
    {
        let a: [u8; 9] = [70, 111, 114, 98, 105, 100, 100, 101, 110];
        let r = Status { code: 403, message: slice_to_vec(a.as_slice()) };
        proof {
            assert(r.message@ =~= reason_of(403));
        }
        r
    }

    /// `404 Not Found`.
    pub fn not_found() -> (r: Status)
        ensures
            r.code == 404 && r.message@ == reason_of(404) && status_wf(r),
    {
        let a: [u8; 9] = [78, 111, 116, 32, 70, 111, 117, 110, 100];
        let r = Status { code: 404, message: slice_to_vec(a.as_slice()) };
        proof {
            assert(r.message@ =~= reason_of(404));
        }
        r
    }

    /// `500 Internal Server Error`.
    pub fn internal_server_error() -> (r: Status)
        ensures
            r.code == 500 && r.message@ == reason_of(500) && status_wf(r),
    {
        let a: [u8; 21] = [73, 110, 116, 101, 114, 110, 97, 108, 32, 83, 101, 114, 118, 101, 114,
            32, 69, 114, 114, 111, 114];
        let r = Status { code: 500, message: slice_to_vec(a.as_slice()) };
        proof {
            assert(r.message@ =~= reason_of(500));
        }
        r
    }

    /// `503 Service Unavailable`.
    pub fn server_unavailable() -> (r: Status)
        ensures
            r.code == 503 && r.message@ == reason_of(503) && status_wf(r),
    {
        let a: [u8; 19] = [83, 101, 114, 118, 105, 99, 101, 32, 85, 110, 97, 118, 97, 105, 108,
            97, 98, 108, 101];
        let r = Status { code: 503, message: slice_to_vec(a.as_slice()) };
        proof {
            assert(r.message@ =~= reason_of(503));
        }
        r
    }

    /// The status for an arbitrary code: unknown codes become
    /// `500 Internal Server Error`.
    pub fn from_code(code: u16) -> (r: Status)
        ensures
            r.code == canon_code(code) && r.message@ == reason_of(canon_code(code))
                && status_wf(r),
    {
        if code == 200 {
            Status::ok()
        } else if code == 301 {
            Status::moved_permanently()
        } else if code == 302 {
            Status::found()
        } else if code == 400 {
            Status::bad_request()
        } else if code == 401 {
            Status::unauthorized()
        } else if code == 403 {
            Status::forbidden()
        } else if code == 404 {
            Status::not_found()
        } else if code == 503 {
            Status::server_unavailable()
        } else {
            Status::internal_server_error()
        }
    }
}

} // verus!
