//! The parsed request model and the wire-format request parser.

pub mod request_body;
pub mod request_header;
pub mod request_line;
pub mod utils;

use vstd::prelude::*;
use vstd::slice::{slice_subrange, slice_to_vec};
use crate::bytemap::{pairs_get, ByteMap};
use crate::bytes::{all_digits, blank_marker, crlf, dec_value, find, find_spec,
    lemma_find_spec_bounds, parse_dec, split, split_spec};
use crate::errors::ParseError;
use crate::methods::method_of;
use crate::request::request_body::{body_doc_of, ct_urlencoded, ct_urlencoded_bytes, Body};
use crate::request::request_header::{headers_of, Header};
use crate::request::request_line::{method_token_of, query_of, url_of, version_of, RequestLine};

verus! {

/// The bytes of `Content-Length`.
pub open spec fn h_content_length() -> Seq<u8> {
    seq![67u8, 111u8, 110u8, 116u8, 101u8, 110u8, 116u8, 45u8, 76u8, 101u8, 110u8, 103u8, 116u8,
        104u8]
}

/// The bytes of `Content-Length`.
pub fn h_content_length_bytes() -> (r: Vec<u8>)
    ensures
        r@ == h_content_length(),
{
    let a: [u8; 14] = [67, 111, 110, 116, 101, 110, 116, 45, 76, 101, 110, 103, 116, 104];
    let v = slice_to_vec(a.as_slice());
    proof {
        assert(v@ =~= h_content_length());
    }
    v
}

/// The bytes of `Content-Type`.
pub open spec fn h_content_type() -> Seq<u8> {
    seq![67u8, 111u8, 110u8, 116u8, 101u8, 110u8, 116u8, 45u8, 84u8, 121u8, 112u8, 101u8]
}

/// The bytes of `Content-Type`.
pub fn h_content_type_bytes() -> (r: Vec<u8>)
    ensures
        r@ == h_content_type(),
{
    let a: [u8; 12] = [67, 111, 110, 116, 101, 110, 116, 45, 84, 121, 112, 101];
    let v = slice_to_vec(a.as_slice());
    proof {
        assert(v@ =~= h_content_type());
    }
    v
}

/// The head section: everything before the first blank-line marker, or
/// the whole buffer when there is none.
pub open spec fn head_of(buf: Seq<u8>) -> Seq<u8> {
    match find_spec(buf, blank_marker()) {
        None => buf,
        Some(i) => buf.subrange(0, i),
    }
}

/// The body section: everything after the first blank-line marker, or
/// nothing when there is none.
pub open spec fn body_section_of(buf: Seq<u8>) -> Seq<u8> {
    match find_spec(buf, blank_marker()) {
        None => Seq::empty(),
        Some(i) => buf.subrange(i + 4, buf.len() as int),
    }
}

/// The lines of the head section.
pub open spec fn head_lines_of(buf: Seq<u8>) -> Seq<Seq<u8>> {
    split_spec(head_of(buf), crlf())
}

/// The request line: the first line of the head.
pub open spec fn request_line_of(buf: Seq<u8>) -> Seq<u8> {
    head_lines_of(buf)[0]
}

/// The header lines: every head line after the first.
pub open spec fn header_lines_of(buf: Seq<u8>) -> Seq<Seq<u8>> {
    head_lines_of(buf).subrange(1, head_lines_of(buf).len() as int)
}

/// The header document of a raw buffer.
pub open spec fn headers_view_of(buf: Seq<u8>) -> Seq<(Seq<u8>, Seq<u8>)> {
    headers_of(header_lines_of(buf))
}

/// The declared body length: the decimal value of the `Content-Length`
/// header, or 0 where the header is absent or does not read as a
/// machine-sized decimal number.
pub open spec fn content_length_of(buf: Seq<u8>) -> int {
    match pairs_get(headers_view_of(buf), h_content_length()) {
        None => 0,
        Some(v) => if v.len() > 0 && all_digits(v) && dec_value(v) <= usize::MAX {
            dec_value(v)
        } else {
            0
        },
    }
}

/// The declared content type: the `Content-Type` header, defaulting to
/// `application/x-www-form-urlencoded`.
pub open spec fn content_type_of(buf: Seq<u8>) -> Seq<u8> {
    match pairs_get(headers_view_of(buf), h_content_type()) {
        None => ct_urlencoded(),
        Some(v) => v,
    }
}

/// The body: the body section truncated to the declared length.
pub open spec fn body_bytes_of(buf: Seq<u8>) -> Seq<u8> {
    let sect = body_section_of(buf);
    let cl = content_length_of(buf);
    if cl < sect.len() {
        sect.subrange(0, cl)
    } else {
        sect
    }
}

/// Whether a raw buffer parses: its query string and, for a form body,
/// its body must hold only pairs with an `=`.
pub open spec fn parse_ok(buf: Seq<u8>) -> bool {
    &&& query_of(request_line_of(buf)) is Some
    &&& body_doc_of(content_type_of(buf), body_bytes_of(buf)) is Some
}

/// What a request parsed from `buf` holds: every field is a function
/// of the raw bytes alone.
pub open spec fn req_matches(buf: Seq<u8>, req: Request) -> bool {
    &&& req.request_line.method == method_of(method_token_of(request_line_of(buf)))
    &&& req.request_line.url@ == url_of(request_line_of(buf))
    &&& req.request_line.http_version@ == version_of(request_line_of(buf))
    &&& req.request_line.query@ == query_of(request_line_of(buf)).unwrap()
    &&& req.query@ == req.request_line.query@
    &&& req.headers@ == headers_view_of(buf)
    &&& req.body.content@ == body_doc_of(content_type_of(buf), body_bytes_of(buf)).unwrap()
}

/// Parsing is a function of the buffer: two requests parsed from the
/// same bytes agree in method, path, version, query, headers and body.
pub proof fn lemma_parse_deterministic(buf: Seq<u8>, a: Request, b: Request)
    requires
        req_matches(buf, a),
        req_matches(buf, b),
    ensures
        a.request_line.method == b.request_line.method,
        a.request_line.url@ == b.request_line.url@,
        a.request_line.http_version@ == b.request_line.http_version@,
        a.request_line.query@ == b.request_line.query@,
        a.query@ == b.query@,
        a.headers@ == b.headers@,
        a.body.content@ == b.body.content@,
{
}

/// A parsed request: request line, headers, body, and the query
/// document again beside the line, as callers expect it.
#[derive(Debug)]
pub struct Request {
    pub query: ByteMap,
    pub request_line: RequestLine,
    pub headers: Header,
    pub body: Body,
}

impl Request {
    /// Parse a raw buffer into a request.
    ///
    /// Parsing never fails on malformed framing: a missing blank line
    /// means an empty body, a missing header means the default, an
    /// unknown method reads as `GET`. It fails exactly where a
    /// non-empty query or form pair has no `=`, and such a request is
    /// answered with `400 Bad Request` by the dispatcher.
    #[verifier::loop_isolation(false)]
    pub fn parse(stream: &[u8]) -> (r: Result<Request, ParseError>)
        ensures
            match r {
                Ok(req) => parse_ok(stream@) && req_matches(stream@, req),
                Err(e) => !parse_ok(stream@) && e == ParseError::BadPair,
            },
    {
        let marker: [u8; 4] = [13, 10, 13, 10];
        let crlf_a: [u8; 2] = [13, 10];
        let none_a: [u8; 0] = [];
        proof {
            assert(marker@ =~= blank_marker());
            assert(crlf_a@ =~= crlf());
            assert(none_a@ =~= Seq::<u8>::empty());
        }
        let sn = stream.len();
        let (head, body_sect): (&[u8], &[u8]) = match find(stream, marker.as_slice()) {
            None => (stream, none_a.as_slice()),
            Some(i) => {
                proof {
                    lemma_find_spec_bounds(stream@, blank_marker());
                }
                (slice_subrange(stream, 0, i), slice_subrange(stream, i + 4, sn))
            },
        };
        proof {
            assert(head@ == head_of(stream@));
            assert(body_sect@ == body_section_of(stream@));
        }
        let lines = split(head, crlf_a.as_slice());
        proof {
            assert(lines.deep_view() == head_lines_of(stream@));
            assert(lines.deep_view()[0] =~= lines@[0]@);
        }
        let request_line = match RequestLine::parse(lines[0].as_slice()) {
            Ok(rl) => rl,
            Err(e) => {
                return Err(e);
            },
        };
        let rest = slice_subrange(lines.as_slice(), 1, lines.len());
        proof {
            assert(rest.deep_view() =~~= header_lines_of(stream@));
        }
        let headers = Header::from_lines(rest);
        proof {
            assert(headers@ == headers_view_of(stream@));
        }
        let cl_key = h_content_length_bytes();
        let cl: usize = match headers.get(cl_key.as_slice()) {
            None => 0,
            Some(v) => match parse_dec(v.as_slice()) {
                Some(x) => x,
                None => 0,
            },
        };
        proof {
            assert(cl == content_length_of(stream@));
        }
        let ct_key = h_content_type_bytes();
        let default_ct = ct_urlencoded_bytes();
        let ct: &[u8] = match headers.get(ct_key.as_slice()) {
            None => default_ct.as_slice(),
            Some(v) => v.as_slice(),
        };
        proof {
            assert(ct@ == content_type_of(stream@));
        }
        let body_bytes: &[u8] = if cl < body_sect.len() {
            slice_subrange(body_sect, 0, cl)
        } else {
            body_sect
        };
        proof {
            assert(body_bytes@ == body_bytes_of(stream@));
        }
        let body = match Body::from_content_type(ct, body_bytes) {
            Ok(b) => b,
            Err(e) => {
                return Err(e);
            },
        };
        let query = request_line.query.duplicate();
        Ok(Request { query, request_line, headers, body })
    }
}

} // verus!
