//! The generic tree document that query strings and request bodies are
//! read into.
//!
//! Flat name/value documents (query strings, form bodies) are the crate's
//! own [`ByteMap`] and are parsed and printed by verified code. JSON
//! bodies are handed to the `json` crate and carried through opaquely;
//! only that crate's `parse` and `dump` are relied upon, each behind one
//! trusted wrapper.

use vstd::prelude::*;
use crate::bytemap::{json_object, ByteMap};

verus! {

/// Declares the `json` crate's document type so that values of it can
/// be carried through the crate's own types; nothing inside it is
/// relied upon.
#[verifier::external_type_specification]
#[verifier::external_body]
pub struct ExJsonValue(json::JsonValue);

/// The document that `json::parse` reads out of `s`, or `None` where it
/// rejects `s`. The result depends on the bytes alone.
pub uninterp spec fn json_doc_of(s: Seq<u8>) -> Option<json::JsonValue>;

/// The text that `json::JsonValue::dump` prints for `v`. The result
/// depends on the document alone.
pub uninterp spec fn json_text_of(v: json::JsonValue) -> Seq<u8>;

/// Relies on `json::parse`: whether it accepts, and what document it
/// yields, are a function of the input bytes alone. The bytes are read
/// as UTF-8 with invalid sequences replaced, as wire text is read
/// elsewhere.
#[verifier::external_body]
pub(crate) fn json_parse(bytes: &[u8]) -> (r: Option<json::JsonValue>)
    ensures
        r == json_doc_of(bytes@),
{
    let text = String::from_utf8_lossy(bytes);
    json::parse(&text).ok()
}

/// Relies on `json::JsonValue::dump`: the compact text it prints is a
/// function of the document alone.
#[verifier::external_body]
fn json_dump(v: &json::JsonValue) -> (r: Vec<u8>)
    ensures
        r@ == json_text_of(*v),
{
    v.dump().into_bytes()
}

/// A tree document: either a flat name/value object of the crate's own,
/// or a JSON document of the `json` crate carried through opaquely.
#[derive(Debug)]
pub enum Document {
    Pairs(ByteMap),
    Json(json::JsonValue),
}

/// The mathematical value of a [`Document`].
pub enum DocView {
    Pairs(Seq<(Seq<u8>, Seq<u8>)>),
    Json(json::JsonValue),
}

impl View for Document {
    type V = DocView;

    open spec fn view(&self) -> DocView {
        match self {
            Document::Pairs(m) => DocView::Pairs(m@),
            Document::Json(v) => DocView::Json(*v),
        }
    }
}

/// The text a document prints as: flat objects print as compact JSON
/// through the crate's own serializer, JSON documents through the `json`
/// crate's.
pub open spec fn doc_text(d: DocView) -> Seq<u8> {
    match d {
        DocView::Pairs(p) => json_object(p),
        DocView::Json(v) => json_text_of(v),
    }
}

impl Document {
    /// The empty document: a flat object with no entries.
    pub fn empty() -> (r: Document)
        ensures
            r@ == DocView::Pairs(Seq::<(Seq<u8>, Seq<u8>)>::empty()),
    {
        Document::Pairs(ByteMap::new())
    }

    /// This document as text.
    pub fn to_bytes(&self) -> (r: Vec<u8>)
        ensures
            r@ == doc_text(self@),
    {
        match self {
            Document::Pairs(m) => m.to_json(),
            Document::Json(v) => json_dump(v),
        }
    }
}

} // verus!
