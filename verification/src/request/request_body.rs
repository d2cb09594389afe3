//! The request body, read into a tree document according to its
//! declared content type.

use vstd::prelude::*;
use vstd::slice::slice_to_vec;
use crate::bytemap::ByteMap;
use crate::document::{json_doc_of, json_parse, DocView, Document};
use crate::errors::ParseError;
use crate::request::utils::{kv_of, parse_kv};

verus! {

/// The bytes of `application/x-www-form-urlencoded`, the default
/// content type.
pub open spec fn ct_urlencoded() -> Seq<u8> {
    seq![97u8, 112u8, 112u8, 108u8, 105u8, 99u8, 97u8, 116u8, 105u8, 111u8, 110u8, 47u8, 120u8,
        45u8, 119u8, 119u8, 119u8, 45u8, 102u8, 111u8, 114u8, 109u8, 45u8, 117u8, 114u8, 108u8,
        101u8, 110u8, 99u8, 111u8, 100u8, 101u8, 100u8]
}

/// The bytes of `application/json`.
pub open spec fn ct_json() -> Seq<u8> {
    seq![97u8, 112u8, 112u8, 108u8, 105u8, 99u8, 97u8, 116u8, 105u8, 111u8, 110u8, 47u8, 106u8,
        115u8, 111u8, 110u8]
}

/// The bytes of `application/x-www-form-urlencoded`.
pub fn ct_urlencoded_bytes() -> (r: Vec<u8>)
    ensures
        r@ == ct_urlencoded(),
{
    let a: [u8; 33] = [97, 112, 112, 108, 105, 99, 97, 116, 105, 111, 110, 47, 120, 45, 119, 119,
        119, 45, 102, 111, 114, 109, 45, 117, 114, 108, 101, 110, 99, 111, 100, 101, 100];
    let v = slice_to_vec(a.as_slice());
    proof {
        assert(v@ =~= ct_urlencoded());
    }
    v
}

/// The bytes of `application/json`.
pub fn ct_json_bytes() -> (r: Vec<u8>)
    ensures
        r@ == ct_json(),
{
    let a: [u8; 16] = [97, 112, 112, 108, 105, 99, 97, 116, 105, 111, 110, 47, 106, 115, 111, 110];
    let v = slice_to_vec(a.as_slice());
    proof {
        assert(v@ =~= ct_json());
    }
    v
}

/// The document a body denotes under a content type. An empty body is
/// the empty document whatever the type; a form body with a pair that
/// has no `=` is fatal (`None`); a JSON body the JSON parser rejects,
/// and any other content type, degrade to the empty document.
pub open spec fn body_doc_of(ct: Seq<u8>, body: Seq<u8>) -> Option<DocView> {
    if body.len() == 0 {
        Some(DocView::Pairs(Seq::empty()))
    } else if ct == ct_urlencoded() {
        match kv_of(body) {
            None => None,
            Some(p) => Some(DocView::Pairs(p)),
        }
    } else if ct == ct_json() {
        match json_doc_of(body) {
            None => Some(DocView::Pairs(Seq::empty())),
            Some(v) => Some(DocView::Json(v)),
        }
    } else {
        Some(DocView::Pairs(Seq::empty()))
    }
}

/// A request body: its document, parsed per the content type.
#[derive(Debug)]
pub struct Body {
    pub content: Document,
}

impl Body {
    /// Read a body as JSON through the JSON parser.
    pub fn parse_json(body: &[u8]) -> (r: Result<Body, ParseError>)
        ensures
            match r {
                Ok(b) => json_doc_of(body@) is Some
                    && b.content@ == DocView::Json(json_doc_of(body@).unwrap()),
                Err(e) => json_doc_of(body@) is None && e == ParseError::BadJson,
            },
    {
        match json_parse(body) {
            Some(v) => Ok(Body { content: Document::Json(v) }),
            None => Err(ParseError::BadJson),
        }
    }

    /// Read a body as a flat `key=value` form document.
    pub fn parse(body: &[u8]) -> (r: Result<Body, ParseError>)
        ensures
            match r {
                Ok(b) => kv_of(body@) is Some
                    && b.content@ == DocView::Pairs(kv_of(body@).unwrap()),
                Err(e) => kv_of(body@) is None && e == ParseError::BadPair,
            },
    {
        match parse_kv(body) {
            Ok(m) => Ok(Body { content: Document::Pairs(m) }),
            Err(e) => Err(e),
        }
    }

    /// Read a body under its declared content type, as [`body_doc_of`]
    /// says.
    pub fn from_content_type(ct: &[u8], body: &[u8]) -> (r: Result<Body, ParseError>)
        ensures
            match r {
                Ok(b) => body_doc_of(ct@, body@) is Some
                    && b.content@ == body_doc_of(ct@, body@).unwrap(),
                Err(e) => body_doc_of(ct@, body@) is None && e == ParseError::BadPair,
            },
    {
        if body.len() == 0 {
            return Ok(Body { content: Document::Pairs(ByteMap::new()) });
        }
        let urlencoded = ct_urlencoded_bytes();
        let json_ct = ct_json_bytes();
        if crate::bytes::bytes_eq(ct, urlencoded.as_slice()) {
            Body::parse(body)
        } else if crate::bytes::bytes_eq(ct, json_ct.as_slice()) {
            match Body::parse_json(body) {
                Ok(b) => Ok(b),
                Err(_) => Ok(Body { content: Document::Pairs(ByteMap::new()) }),
            }
        } else {
            Ok(Body { content: Document::Pairs(ByteMap::new()) })
        }
    }

    /// This body's document as text.
    pub fn to_bytes(&self) -> (r: Vec<u8>)
        ensures
            r@ == crate::document::doc_text(self.content@),
    {
        self.content.to_bytes()
    }
}

} // verus!
