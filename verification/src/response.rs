//! The response model: builders for the responses the server emits, and
//! the serializer that turns a response into wire bytes.

pub mod response_header;
pub mod status;
pub mod status_line;
pub mod utils;

use vstd::prelude::*;
use vstd::slice::slice_to_vec;
use vstd::string::StringSliceAdditionalSpecFns;
use crate::bytemap::{insert_pair, lemma_insert_fresh, pairs_get};
use crate::bytes::{blank_marker, crlf, crlf_free, dec_bytes, dec_value, find_spec,
    lemma_dec_round_trip, lemma_find_spec, match_at, push_all, render_dec};
use crate::request::{body_section_of, head_of};
use crate::request::{h_content_length, h_content_length_bytes, h_content_type,
    h_content_type_bytes};
use crate::response::response_header::{header_block, header_line, Header};
use crate::response::status::{reason_of, Status};
use crate::response::status_line::{status_line_bytes, StatusLine};
use crate::response::utils::{lemma_mime_crlf_free, mime_html, mime_html_bytes, mime_of_path,
    mime_plain, mime_plain_bytes, parse_file_mime_type};

verus! {

/// The bytes of `HTTP/1.1`, the protocol version the server speaks.
pub open spec fn http11() -> Seq<u8> {
    seq![72u8, 84u8, 84u8, 80u8, 47u8, 49u8, 46u8, 49u8]
}

/// The bytes of `HTTP/1.1`.
pub fn http11_bytes() -> (r: Vec<u8>)
    ensures
        r@ == http11(),
{
    let a: [u8; 8] = [72, 84, 84, 80, 47, 49, 46, 49];
    let v = slice_to_vec(a.as_slice());
    proof {
        assert(v@ =~= http11());
    }
    v
}

/// The bytes of `Location`.
pub open spec fn h_location() -> Seq<u8> {
    seq![76u8, 111u8, 99u8, 97u8, 116u8, 105u8, 111u8, 110u8]
}

/// The bytes of the fixed not-found page, `<h1>404 NOT FOUND!</h1>`.
pub open spec fn not_found_page() -> Seq<u8> {
    seq![60u8, 104u8, 49u8, 62u8, 52u8, 48u8, 52u8, 32u8, 78u8, 79u8, 84u8, 32u8, 70u8, 79u8,
        85u8, 78u8, 68u8, 33u8, 60u8, 47u8, 104u8, 49u8, 62u8]
}

/// The payload bytes of an optional body: nothing when there is none.
pub open spec fn content_bytes(c: Option<Vec<u8>>) -> Seq<u8> {
    match c {
        None => Seq::empty(),
        Some(v) => v@,
    }
}

/// The exact `404 Not Found` response the dispatcher synthesizes: the
/// fixed not-found page as `text/html`, over `HTTP/1.1`.
pub open spec fn is_not_found(r: Response) -> bool {
    &&& r.status_line.http_version@ == http11()
    &&& r.status_line.status.code == 404
    &&& r.status_line.status.message@ == reason_of(404)
    &&& r.header@ == seq![(h_content_type(), mime_html()),
        (h_content_length(), dec_bytes(not_found_page().len() as int))]
    &&& r.content matches Some(c) && c@ == not_found_page()
}

/// The exact `400 Bad Request` response for a request that would not
/// parse: no headers, no payload, over `HTTP/1.1`.
pub open spec fn is_bad_request(r: Response) -> bool {
    &&& r.status_line.http_version@ == http11()
    &&& r.status_line.status.code == 400
    &&& r.status_line.status.message@ == reason_of(400)
    &&& r.header@ == Seq::<(Seq<u8>, Seq<u8>)>::empty()
    &&& r.content is None
}

/// The exact wire bytes of the fixed `404 Not Found` response.
pub open spec fn not_found_wire() -> Seq<u8> {
    status_line_bytes(http11(), 404, reason_of(404)) + seq![13u8, 10u8]
        + header_block(seq![(h_content_type(), mime_html()),
            (h_content_length(), dec_bytes(not_found_page().len() as int))]) + seq![13u8, 10u8]
        + not_found_page()
}

/// The exact wire bytes of the `400 Bad Request` response.
pub open spec fn bad_request_wire() -> Seq<u8> {
    status_line_bytes(http11(), 400, reason_of(400)) + seq![13u8, 10u8] + seq![13u8, 10u8]
}

/// A response: status line, header block, optional payload.
/// `Content-Length` is always derived from the payload by the
/// constructor, never caller-supplied.
pub struct Response {
    pub status_line: StatusLine,
    pub header: Header,
    pub content: Option<Vec<u8>>,
}

/// The wire bytes of a response: status line, header lines, a blank
/// line, then the raw payload, every line CRLF-terminated.
pub open spec fn serial_bytes(r: Response) -> Seq<u8> {
    r.status_line.wire_bytes() + seq![13u8, 10u8] + header_block(r.header@) + seq![13u8, 10u8]
        + content_bytes(r.content)
}

impl Response {
    /// Build a response. When a payload is present, its length is
    /// written into `Content-Length`, overwriting anything the caller
    /// put there.
    pub fn new(http_version: &[u8], status: Status, header: Header, content: Option<Vec<u8>>)
        -> (r: Response)
        ensures
            r.status_line.http_version@ == http_version@,
            r.status_line.status.code == status.code,
            r.status_line.status.message@ == status.message@,
            match content {
                None => r.header@ == header@ && r.content is None,
                Some(c) => r.header@ == insert_pair(header@, h_content_length(),
                    dec_bytes(c@.len() as int)) && (r.content matches Some(rc) && rc@ == c@),
            },
    {
        let status_line = StatusLine { status, http_version: slice_to_vec(http_version) };
        match content {
            None => Response { status_line, header, content: None },
            Some(c) => {
                let mut header = header;
                let len_bytes = render_dec(c.len() as u64);
                header.set(h_content_length_bytes(), len_bytes);
                Response { status_line, header, content: Some(c) }
            },
        }
    }

    /// The numeric status code.
    pub fn status_code(&self) -> (r: u16)
        ensures
            r == self.status_line.status.code,
    {
        self.status_line.status.code
    }

    /// Serialize this response to wire bytes, taking the payload out.
    pub fn as_bytes(&mut self) -> (r: Vec<u8>)
        ensures
            r@ == serial_bytes(*old(self)),
            final(self).status_line == old(self).status_line,
            final(self).header@ == old(self).header@,
            final(self).content is None,
    {
        let mut out: Vec<u8> = Vec::new();
        push_all(&mut out, self.status_line.http_version.as_slice());
        out.push(32);
        let code_bytes = render_dec(self.status_line.status.code as u64);
        push_all(&mut out, code_bytes.as_slice());
        out.push(32);
        push_all(&mut out, self.status_line.status.message.as_slice());
        out.push(13);
        out.push(10);
        proof {
            assert(out@ =~= self.status_line.wire_bytes() + seq![13u8, 10u8]);
        }
        self.header.write_into(&mut out);
        out.push(13);
        out.push(10);
        match self.content.take() {
            None => {
                proof {
                    assert(out@ =~= serial_bytes(*old(self)));
                }
                out
            },
            Some(c) => {
                push_all(&mut out, c.as_slice());
                proof {
                    assert(out@ =~= serial_bytes(*old(self)));
                }
                out
            },
        }
    }

    /// Replace the `Content-Type` header.
    pub fn set_content_type(self, content_type: &str) -> (r: Response)
        ensures
            r.status_line == self.status_line,
            r.header@ == insert_pair(self.header@, h_content_type(), content_type.spec_bytes()),
            r.content == self.content,
    {
        let Response { status_line, mut header, content } = self;
        let value = slice_to_vec(content_type.as_bytes());
        header.set(h_content_type_bytes(), value);
        Response { status_line, header, content }
    }
}

/// Every response the dispatcher synthesizes for a miss serializes to
/// the same fixed bytes.
pub proof fn lemma_not_found_serializes(r: Response)
    requires
        is_not_found(r),
    ensures
        serial_bytes(r) == not_found_wire(),
{
    assert(serial_bytes(r) =~= not_found_wire());
}

/// Every response the dispatcher synthesizes for an unparsable request
/// serializes to the same fixed bytes.
pub proof fn lemma_bad_request_serializes(r: Response)
    requires
        is_bad_request(r),
    ensures
        serial_bytes(r) == bad_request_wire(),
{
    assert(header_block(r.header@) =~= Seq::<u8>::empty());
    assert(serial_bytes(r) =~= bad_request_wire());
}

/// The decimal digits of a non-negative number are free of CR and LF.
proof fn lemma_digits_crlf_free(n: int)
    requires
        n >= 0,
    ensures
        crlf_free(dec_bytes(n)),
{
    lemma_dec_round_trip(n);
    assert forall|i: int| 0 <= i < dec_bytes(n).len()
        implies dec_bytes(n)[i] != 13 && dec_bytes(n)[i] != 10 by {
        assert(crate::bytes::is_digit(dec_bytes(n)[i]));
    }
}

/// In a header block of one content-type entry and one content-length
/// entry, the declared length reads back.
proof fn lemma_two_headers_get(ct_val: Seq<u8>, cl_val: Seq<u8>)
    ensures
        pairs_get(seq![(h_content_type(), ct_val), (h_content_length(), cl_val)],
            h_content_length()) == Some(cl_val),
{
    let hdr = seq![(h_content_type(), ct_val), (h_content_length(), cl_val)];
    assert(h_content_type().len() != h_content_length().len());
    assert(crate::bytemap::key_index(hdr.subrange(1, 2), h_content_length()) == 0);
    assert(crate::bytemap::key_index(hdr, h_content_length()) == 1);
}

/// The root of the response builders.
pub struct BaseResponse;

impl BaseResponse {
    /// Build a success response.
    pub fn success() -> SuccessResponse {
        SuccessResponse
    }

    /// Build a client-error response.
    pub fn client_error() -> ClientErrorResponse {
        ClientErrorResponse
    }

    /// Build a redirect response.
    pub fn redirect() -> RedirectResponse {
        RedirectResponse
    }
}

/// Builder for `200 OK` responses.
pub struct SuccessResponse;

impl SuccessResponse {
    /// A `200 OK` response carrying `body` as `text/plain`.
    pub fn string(self, body: &str) -> (r: Response)
        ensures
            r.status_line.http_version@ == http11(),
            r.status_line.status.code == 200,
            r.status_line.status.message@ == reason_of(200),
            r.header@ == seq![(h_content_type(), mime_plain()),
                (h_content_length(), dec_bytes(body.spec_bytes().len() as int))],
            r.content matches Some(c) && c@ == body.spec_bytes(),
            resp_wf(r),
            pairs_get(r.header@, h_content_length())
                == Some(dec_bytes(body.spec_bytes().len() as int)),
    {
        let content = slice_to_vec(body.as_bytes());
        let mut header = Header::new();
        header.set(h_content_type_bytes(), mime_plain_bytes());
        let version = http11_bytes();
        let r = Response::new(version.as_slice(), Status::ok(), header, Some(content));
        proof {
            lemma_insert_fresh(Seq::empty(), h_content_type(), mime_plain());
            lemma_insert_fresh(seq![(h_content_type(), mime_plain())], h_content_length(),
                dec_bytes(body.spec_bytes().len() as int));
            assert(r.header@ =~= seq![(h_content_type(), mime_plain()),
                (h_content_length(), dec_bytes(body.spec_bytes().len() as int))]);
            lemma_digits_crlf_free(body.spec_bytes().len() as int);
            lemma_two_headers_get(mime_plain(), dec_bytes(body.spec_bytes().len() as int));
        }
        r
    }

    /// A `200 OK` response carrying the contents of a file, with the
    /// MIME type its name's extension implies. The caller reads the
    /// file; this builder only frames what was read.
    pub fn file_content(self, file: &[u8], content: Vec<u8>) -> (r: Response)
        ensures
            r.status_line.http_version@ == http11(),
            r.status_line.status.code == 200,
            r.status_line.status.message@ == reason_of(200),
            r.header@ == seq![(h_content_type(), mime_of_path(file@)),
                (h_content_length(), dec_bytes(content@.len() as int))],
            r.content matches Some(c) && c@ == content@,
            resp_wf(r),
            pairs_get(r.header@, h_content_length())
                == Some(dec_bytes(content@.len() as int)),
    {
        let mime = parse_file_mime_type(file);
        let mut header = Header::new();
        header.set(h_content_type_bytes(), mime);
        let version = http11_bytes();
        let r = Response::new(version.as_slice(), Status::ok(), header, Some(content));
        proof {
            lemma_insert_fresh(Seq::empty(), h_content_type(), mime_of_path(file@));
            lemma_insert_fresh(seq![(h_content_type(), mime_of_path(file@))], h_content_length(),
                dec_bytes(content@.len() as int));
            assert(r.header@ =~= seq![(h_content_type(), mime_of_path(file@)),
                (h_content_length(), dec_bytes(content@.len() as int))]);
            lemma_mime_crlf_free(file@);
            lemma_digits_crlf_free(content@.len() as int);
            lemma_two_headers_get(mime_of_path(file@), dec_bytes(content@.len() as int));
        }
        r
    }
}

/// Builder for client-error responses.
pub struct ClientErrorResponse;

impl ClientErrorResponse {
    /// The fixed `404 Not Found` response: the not-found page as
    /// `text/html`.
    pub fn not_found(self) -> (r: Response)
        ensures
            is_not_found(r),
            resp_wf(r),
            pairs_get(r.header@, h_content_length())
                == Some(dec_bytes(not_found_page().len() as int)),
    {
        let a: [u8; 23] = [60, 104, 49, 62, 52, 48, 52, 32, 78, 79, 84, 32, 70, 79, 85, 78, 68,
            33, 60, 47, 104, 49, 62];
        let content = slice_to_vec(a.as_slice());
        proof {
            assert(content@ =~= not_found_page());
        }
        let mut header = Header::new();
        header.set(h_content_type_bytes(), mime_html_bytes());
        let version = http11_bytes();
        let r = Response::new(version.as_slice(), Status::not_found(), header, Some(content));
        proof {
            lemma_insert_fresh(Seq::empty(), h_content_type(), mime_html());
            lemma_insert_fresh(seq![(h_content_type(), mime_html())], h_content_length(),
                dec_bytes(not_found_page().len() as int));
            assert(r.header@ =~= seq![(h_content_type(), mime_html()),
                (h_content_length(), dec_bytes(not_found_page().len() as int))]);
            lemma_digits_crlf_free(not_found_page().len() as int);
            lemma_two_headers_get(mime_html(), dec_bytes(not_found_page().len() as int));
        }
        r
    }

    /// The `400 Bad Request` response for a request that would not
    /// parse, with no payload.
    pub fn bad_request(self) -> (r: Response)
        ensures
            is_bad_request(r),
            resp_wf(r),
    {
        let header = Header::new();
        let version = http11_bytes();
        Response::new(version.as_slice(), Status::bad_request(), header, None)
    }
}

/// Builder for redirect responses.
pub struct RedirectResponse;

impl RedirectResponse {
    /// A `302 Found` redirect whose `Location` header names the
    /// target, with no payload.
    pub fn temporary(self, target: &[u8]) -> (r: Response)
        ensures
            r.status_line.http_version@ == http11(),
            r.status_line.status.code == 302,
            r.status_line.status.message@ == reason_of(302),
            r.header@ == seq![(h_location(), target@)],
            r.content is None,
            crlf_free(target@) ==> resp_wf(r),
    {
        let a: [u8; 8] = [76, 111, 99, 97, 116, 105, 111, 110];
        let name = slice_to_vec(a.as_slice());
        proof {
            assert(name@ =~= h_location());
        }
        let mut header = Header::new();
        header.set(name, slice_to_vec(target));
        let version = http11_bytes();
        let r = Response::new(version.as_slice(), Status::found(), header, None);
        proof {
            assert(r.header@ =~= seq![(h_location(), target@)]);
        }
        r
    }
}

/// The wire bytes of one header entry without its terminator:
/// `<name>: <value>`.
pub open spec fn line_text(p: (Seq<u8>, Seq<u8>)) -> Seq<u8> {
    p.0 + seq![58u8, 32u8] + p.1
}

/// The head text that re-splitting a serialized response on the
/// blank-line marker recovers: the status line, then each header line
/// behind its own CRLF.
pub open spec fn joined_lines(pairs: Seq<(Seq<u8>, Seq<u8>)>) -> Seq<u8>
    decreases pairs.len(),
{
    if pairs.len() == 0 {
        Seq::empty()
    } else {
        joined_lines(pairs.drop_last()) + crlf() + line_text(pairs.last())
    }
}

/// The exact header block of a response: status line and header lines,
/// CRLF-separated, with no trailing terminator.
pub open spec fn head_text(r: Response) -> Seq<u8> {
    r.status_line.wire_bytes() + joined_lines(r.header@)
}

/// Regrouping the serializer's output around the blank-line marker:
/// the wire bytes are exactly the head text, the marker, and the raw
/// payload.
pub proof fn lemma_serial_regroup(r: Response)
    ensures
        serial_bytes(r) == head_text(r) + blank_marker() + content_bytes(r.content),
{
    lemma_block_regroup(r.header@);
    let sl = r.status_line.wire_bytes();
    let hb = header_block(r.header@);
    let j = joined_lines(r.header@);
    let body = content_bytes(r.content);
    assert(sl + seq![13u8, 10u8] + hb =~= sl + (crlf() + hb));
    assert(sl + (j + crlf()) =~= (sl + j) + crlf());
    assert(serial_bytes(r) =~= (sl + j) + crlf() + seq![13u8, 10u8] + body);
    assert((sl + j) + crlf() + seq![13u8, 10u8] + body
        =~= head_text(r) + blank_marker() + content_bytes(r.content));
}

/// The CRLF-terminated header block, framed by the surrounding line
/// terminators, regroups as leading-CRLF lines followed by the final
/// CRLF pair.
proof fn lemma_block_regroup(pairs: Seq<(Seq<u8>, Seq<u8>)>)
    ensures
        crlf() + header_block(pairs) == joined_lines(pairs) + crlf(),
    decreases pairs.len(),
{
    if pairs.len() == 0 {
        assert(crlf() + header_block(pairs) =~= joined_lines(pairs) + crlf());
    } else {
        lemma_block_regroup(pairs.drop_last());
        assert(header_block(pairs)
            == header_block(pairs.drop_last()) + header_line(pairs.last()));
        assert(header_line(pairs.last()) =~= line_text(pairs.last()) + crlf());
        assert(crlf() + header_block(pairs) =~= (crlf() + header_block(pairs.drop_last()))
            + line_text(pairs.last()) + crlf());
        assert(crlf() + header_block(pairs) =~= joined_lines(pairs) + crlf());
    }
}

/// A head in the making: it holds no blank-line marker, and it does
/// not end in any prefix of one, so appending the marker itself cannot
/// create an occurrence before its own position.
pub open spec fn head_ok(s: Seq<u8>) -> bool {
    &&& forall|p: int| !match_at(s, blank_marker(), p)
    &&& (s.len() >= 1 ==> s[s.len() - 1] != 13)
    &&& (s.len() >= 2 ==> !(s[s.len() - 2] == 13 && s[s.len() - 1] == 10))
    &&& (s.len() >= 3 ==> !(s[s.len() - 3] == 13 && s[s.len() - 2] == 10
        && s[s.len() - 1] == 13))
}

/// Text free of CR and LF cannot hold or end a blank-line marker.
proof fn lemma_crlf_free_head_ok(s: Seq<u8>)
    requires
        crlf_free(s),
    ensures
        head_ok(s),
{
    assert forall|p: int| true implies !match_at(s, blank_marker(), p) by {
        if 0 <= p && p + 4 <= s.len() {
            if s.subrange(p, p + 4) == blank_marker() {
                assert(s[p] == s.subrange(p, p + 4)[0]);
            }
        }
    }
}

/// Appending one CRLF-led, CRLF-free line keeps a head well formed.
proof fn lemma_head_ok_extend(s: Seq<u8>, line: Seq<u8>)
    requires
        head_ok(s),
        crlf_free(line),
        line.len() >= 1,
    ensures
        head_ok(s + crlf() + line),
{
    let t = s + crlf() + line;
    let m = s.len() as int;
    assert(t.len() == m + 2 + line.len());
    assert(t[m] == 13 && t[m + 1] == 10);
    assert(forall|i: int| 0 <= i < m ==> t[i] == s[i]);
    assert(forall|i: int| m + 2 <= i < t.len() ==> t[i] == line[i - m - 2]);
    assert forall|p: int| true implies !match_at(t, blank_marker(), p) by {
        if 0 <= p && p + 4 <= t.len() {
            if t.subrange(p, p + 4) == blank_marker() {
                assert(t[p] == 13 && t[p + 1] == 10 && t[p + 2] == 13 && t[p + 3] == 10) by {
                    assert(t.subrange(p, p + 4)[0] == t[p]);
                    assert(t.subrange(p, p + 4)[1] == t[p + 1]);
                    assert(t.subrange(p, p + 4)[2] == t[p + 2]);
                    assert(t.subrange(p, p + 4)[3] == t[p + 3]);
                }
                if p + 4 <= m {
                    assert(s.subrange(p, p + 4) =~= t.subrange(p, p + 4));
                    assert(match_at(s, blank_marker(), p));
                } else if p == m - 1 {
                    assert(s[m - 1] == 13);
                } else if p == m - 2 {
                    assert(s[m - 2] == 13 && s[m - 1] == 10);
                } else if p == m - 3 {
                    assert(s[m - 3] == 13 && s[m - 2] == 10 && s[m - 1] == 13);
                } else if p == m {
                    assert(t[m + 2] == line[0]);
                } else if p == m + 1 {
                    assert(t[m + 1] == 10);
                } else {
                    assert(p >= m + 2);
                    assert(t[p] == line[p - m - 2]);
                }
                assert(false);
            }
        }
    }
    if line.len() == 1 {
        assert(t[t.len() - 1] == line[0]);
        assert(t[t.len() - 2] == 10);
        assert(t[t.len() - 3] == 13);
    } else if line.len() == 2 {
        assert(t[t.len() - 1] == line[1]);
        assert(t[t.len() - 2] == line[0]);
        assert(t[t.len() - 3] == 10);
    } else {
        assert(t[t.len() - 1] == line[line.len() - 1]);
        assert(t[t.len() - 2] == line[line.len() - 2]);
        assert(t[t.len() - 3] == line[line.len() - 3]);
    }
}

/// A response whose version, reason phrase, header names and header
/// values are free of CR and LF. Serialization of such a response can
/// be split back apart on the blank-line marker.
pub open spec fn resp_wf(r: Response) -> bool {
    &&& crlf_free(r.status_line.http_version@)
    &&& crlf_free(r.status_line.status.message@)
    &&& forall|i: int| #![auto] 0 <= i < r.header@.len()
        ==> crlf_free(r.header@[i].0) && crlf_free(r.header@[i].1)
}

/// The status line of a well-formed response holds no CR and no LF.
proof fn lemma_status_line_crlf_free(r: Response)
    requires
        resp_wf(r),
    ensures
        crlf_free(r.status_line.wire_bytes()),
{
    let v = r.status_line.http_version@;
    let d = dec_bytes(r.status_line.status.code as int);
    let msg = r.status_line.status.message@;
    lemma_dec_round_trip(r.status_line.status.code as int);
    let w = r.status_line.wire_bytes();
    assert forall|i: int| 0 <= i < w.len() implies w[i] != 13 && w[i] != 10 by {
        let a = v + seq![32u8];
        let b = a + d;
        let c = b + seq![32u8];
        assert(w == c + msg);
        if i < a.len() {
        } else if i < b.len() {
            assert(b[i] == d[i - a.len()]);
            assert(48 <= d[i - a.len()] <= 57);
        } else if i < c.len() {
        } else {
            assert(w[i] == msg[i - c.len()]);
        }
    }
}

/// The head text of a well-formed response is a well-formed head.
proof fn lemma_head_text_ok(r: Response)
    requires
        resp_wf(r),
    ensures
        head_ok(head_text(r)),
{
    lemma_status_line_crlf_free(r);
    lemma_crlf_free_head_ok(r.status_line.wire_bytes());
    lemma_joined_ok(r.status_line.wire_bytes(), r.header@);
}

/// Joining well-formed header lines onto a well-formed head keeps it
/// well formed.
proof fn lemma_joined_ok(sl: Seq<u8>, pairs: Seq<(Seq<u8>, Seq<u8>)>)
    requires
        head_ok(sl),
        forall|i: int| #![auto] 0 <= i < pairs.len()
            ==> crlf_free(pairs[i].0) && crlf_free(pairs[i].1),
    ensures
        head_ok(sl + joined_lines(pairs)),
    decreases pairs.len(),
{
    if pairs.len() == 0 {
        assert(sl + joined_lines(pairs) =~= sl);
    } else {
        let bl = pairs.drop_last();
        assert(forall|i: int| #![auto] 0 <= i < bl.len()
            ==> crlf_free(bl[i].0) && crlf_free(bl[i].1));
        lemma_joined_ok(sl, bl);
        let line = line_text(pairs.last());
        assert(crlf_free(line)) by {
            let k = pairs.last().0;
            let v = pairs.last().1;
            assert forall|i: int| 0 <= i < line.len() implies line[i] != 13 && line[i] != 10 by {
                let a = k + seq![58u8, 32u8];
                assert(line == a + v);
                if i < k.len() {
                    assert(line[i] == k[i]);
                } else if i < a.len() {
                } else {
                    assert(line[i] == v[i - a.len()]);
                }
            }
        }
        assert(line.len() >= 2);
        lemma_head_ok_extend(sl + joined_lines(bl), line);
        assert(sl + joined_lines(pairs) =~= (sl + joined_lines(bl)) + crlf() + line);
    }
}

/// Serializing a response and re-splitting the bytes on the blank-line
/// marker recovers the exact header block — the status line and every
/// header line — and the raw payload; and when a payload is present,
/// its length equals the declared `Content-Length`.
pub proof fn lemma_response_round_trip(r: Response)
    requires
        resp_wf(r),
        r.content matches Some(c)
            ==> pairs_get(r.header@, crate::request::h_content_length())
                == Some(dec_bytes(c@.len() as int)),
    ensures
        find_spec(serial_bytes(r), blank_marker()) == Some(head_text(r).len() as int),
        head_of(serial_bytes(r)) == head_text(r),
        body_section_of(serial_bytes(r)) == content_bytes(r.content),
        r.content matches Some(c) ==> dec_value(pairs_get(r.header@,
            crate::request::h_content_length()).unwrap())
            == body_section_of(serial_bytes(r)).len(),
{
    lemma_serial_regroup(r);
    lemma_head_text_ok(r);
    let head = head_text(r);
    let body = content_bytes(r.content);
    let t = serial_bytes(r);
    let m = head.len() as int;
    assert(match_at(t, blank_marker(), m)) by {
        assert(t.subrange(m, m + 4) =~= blank_marker());
    }
    assert forall|p: int| 0 <= p < m implies !match_at(t, blank_marker(), p) by {
        if match_at(t, blank_marker(), p) {
            let u = head + blank_marker();
            assert(forall|i: int| 0 <= i < u.len() ==> t[i] == u[i]);
            if p + 4 <= u.len() {
                assert(u.subrange(p, p + 4) =~= t.subrange(p, p + 4));
                assert(match_at(u, blank_marker(), p));
                assert(!head_ok(head)) by {
                    lemma_marker_stays_out(head);
                }
            }
        }
    }
    lemma_find_spec(t, blank_marker());
    match find_spec(t, blank_marker()) {
        Some(k) => {
            assert(!(k < m));
            assert(!(k > m)) by {
                if k > m {
                    assert(!match_at(t, blank_marker(), m));
                }
            }
        },
        None => {
            assert(!match_at(t, blank_marker(), m));
        },
    }
    assert(head_of(t) =~= head);
    assert(body_section_of(t) =~= body);
    match r.content {
        Some(c) => {
            lemma_dec_round_trip(c@.len() as int);
        },
        None => {},
    }
}

/// A well-formed head followed by the marker holds no marker before the
/// marker's own position.
proof fn lemma_marker_stays_out(head: Seq<u8>)
    requires
        head_ok(head),
    ensures
        forall|p: int| 0 <= p < head.len()
            ==> !match_at(head + blank_marker(), blank_marker(), p),
{
    let u = head + blank_marker();
    let m = head.len() as int;
    assert forall|p: int| 0 <= p < m implies !match_at(u, blank_marker(), p) by {
        if match_at(u, blank_marker(), p) {
            assert(u[p] == 13 && u[p + 1] == 10 && u[p + 2] == 13 && u[p + 3] == 10) by {
                assert(u.subrange(p, p + 4)[0] == u[p]);
                assert(u.subrange(p, p + 4)[1] == u[p + 1]);
                assert(u.subrange(p, p + 4)[2] == u[p + 2]);
                assert(u.subrange(p, p + 4)[3] == u[p + 3]);
            }
            assert(forall|i: int| 0 <= i < m ==> u[i] == head[i]);
            assert(u[m] == 13 && u[m + 1] == 10 && u[m + 2] == 13 && u[m + 3] == 10);
            if p + 4 <= m {
                assert(head.subrange(p, p + 4) =~= u.subrange(p, p + 4));
                assert(match_at(head, blank_marker(), p));
            } else if p == m - 1 {
                assert(head[m - 1] == 13);
            } else if p == m - 2 {
                assert(head[m - 2] == 13 && head[m - 1] == 10);
            } else if p == m - 3 {
                assert(head[m - 3] == 13 && head[m - 2] == 10 && head[m - 1] == 13);
            }
            assert(false);
        }
    }
}

} // verus!
