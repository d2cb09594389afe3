//! The first line of a request: method, target, protocol version.

use vstd::prelude::*;
use vstd::slice::{slice_subrange, slice_to_vec};
use crate::bytemap::ByteMap;
use crate::bytes::{find, find_spec, lemma_find_spec_bounds, split, split_spec};
use crate::errors::ParseError;
use crate::methods::{method_of, Methods};
use crate::request::utils::{kv_of, parse_kv};

verus! {

/// The space-separated tokens of a request line.
pub open spec fn tokens_of(line: Seq<u8>) -> Seq<Seq<u8>> {
    split_spec(line, seq![32u8])
}

/// The method token: what stands before the first space.
pub open spec fn method_token_of(line: Seq<u8>) -> Seq<u8> {
    tokens_of(line)[0]
}

/// The target token: what stands between the first and second space, or
/// nothing when the line has no second token.
pub open spec fn target_of(line: Seq<u8>) -> Seq<u8> {
    if tokens_of(line).len() >= 2 {
        tokens_of(line)[1]
    } else {
        Seq::empty()
    }
}

/// The protocol version token: the third token, or nothing when the
/// line has no third token.
pub open spec fn version_of(line: Seq<u8>) -> Seq<u8> {
    if tokens_of(line).len() >= 3 {
        tokens_of(line)[2]
    } else {
        Seq::empty()
    }
}

/// The path part of the target: what stands before the first `?`, or
/// the whole target when it has none.
pub open spec fn url_of(line: Seq<u8>) -> Seq<u8> {
    let target = target_of(line);
    match find_spec(target, seq![63u8]) {
        None => target,
        Some(i) => target.subrange(0, i),
    }
}

/// The raw query string: everything after the first `?` of the target,
/// or `None` when the target has no `?`.
pub open spec fn raw_query_of(line: Seq<u8>) -> Option<Seq<u8>> {
    let target = target_of(line);
    match find_spec(target, seq![63u8]) {
        None => None,
        Some(i) => Some(target.subrange(i + 1, target.len() as int)),
    }
}

/// The query document of a request line, when its raw query parses.
/// A target without `?` has the empty query document.
pub open spec fn query_of(line: Seq<u8>) -> Option<Seq<(Seq<u8>, Seq<u8>)>> {
    match raw_query_of(line) {
        None => Some(Seq::empty()),
        Some(q) => kv_of(q),
    }
}

/// A parsed request line. The path holds no `?...` part: the query
/// stands apart as a flat document.
#[derive(Debug)]
pub struct RequestLine {
    pub method: Methods,
    pub url: Vec<u8>,
    pub http_version: Vec<u8>,
    pub query: ByteMap,
}

impl RequestLine {
    /// Parse a request line. Fails exactly where the query string holds
    /// a non-empty pair with no `=`; every malformed field short of that
    /// degrades:
    /// an unknown method token reads as `GET`, and a missing target or
    /// version reads as empty.
    pub fn parse(line: &[u8]) -> (r: Result<RequestLine, ParseError>)
        ensures
            match r {
                Ok(rl) => {
                    &&& query_of(line@) is Some
                    &&& rl.method == method_of(method_token_of(line@))
                    &&& rl.url@ == url_of(line@)
                    &&& rl.http_version@ == version_of(line@)
                    &&& rl.query@ == query_of(line@).unwrap()
                },
                Err(e) => query_of(line@) is None && e == ParseError::BadPair,
            },
    {
        let sp: [u8; 1] = [32];
        let qm: [u8; 1] = [63];
        let none: [u8; 0] = [];
        proof {
            assert(sp@ =~= seq![32u8]);
            assert(qm@ =~= seq![63u8]);
            assert(none@ =~= Seq::<u8>::empty());
        }
        let tokens = split(line, sp.as_slice());
        proof {
            assert(tokens.deep_view()[0] =~= tokens@[0]@);
        }
        let method = Methods::from_bytes(tokens[0].as_slice());
        let target: &[u8] = if tokens.len() >= 2 {
            proof {
                assert(tokens.deep_view()[1] =~= tokens@[1 as int]@);
            }
            tokens[1].as_slice()
        } else {
            proof {
                assert(tokens.deep_view().len() < 2);
            }
            none.as_slice()
        };
        proof {
            assert(target@ == target_of(line@));
        }
        let tlen = target.len();
        let (url, query): (Vec<u8>, ByteMap) = match find(target, qm.as_slice()) {
            None => (slice_to_vec(target), ByteMap::new()),
            Some(i) => {
                proof {
                    lemma_find_spec_bounds(target@, seq![63u8]);
                }
                let url = slice_to_vec(slice_subrange(target, 0, i));
                let raw_query = slice_subrange(target, i + 1, tlen);
                proof {
                    assert(raw_query@ == raw_query_of(line@).unwrap());
                }
                match parse_kv(raw_query) {
                    Ok(m) => (url, m),
                    Err(e) => {
                        return Err(e);
                    },
                }
            },
        };
        let http_version = if tokens.len() >= 3 {
            proof {
                assert(tokens.deep_view()[2] =~= tokens@[2 as int]@);
            }
            slice_to_vec(tokens[2].as_slice())
        } else {
            proof {
                assert(tokens.deep_view().len() < 3);
            }
            Vec::new()
        };
        proof {
            assert(http_version@ =~= version_of(line@));
        }
        Ok(RequestLine { method, url, http_version, query })
    }
}

} // verus!
