//! The closed set of HTTP methods the server understands.

use vstd::prelude::*;
use vstd::string::StringSliceAdditionalSpecFns;

verus! {

/// An HTTP method. Only `GET` and `POST` are routed; every other token on
/// the wire is read as `GET`.
#[derive(Clone, Copy, Debug, PartialEq, Eq, Structural)]
pub enum Methods {
    Get,
    Post,
}

/// The method a raw token denotes: `POST` for the exact bytes `POST`,
/// `GET` for everything else. Every place that turns a token into a
/// [`Methods`] value goes through this one definition, so the defaulting
/// of unknown tokens to `GET` is uniform across the crate.
pub open spec fn method_of(token: Seq<u8>) -> Methods {
    if token == seq![80u8, 79u8, 83u8, 84u8] {
        Methods::Post
    } else {
        Methods::Get
    }
}

/// Every token other than the exact bytes `POST` reads as `GET`: the
/// defaulting of unrecognized method tokens is uniform, since every
/// call site goes through `method_of`.
pub proof fn lemma_unknown_token_reads_as_get(token: Seq<u8>)
    requires
        token != seq![80u8, 79u8, 83u8, 84u8],
    ensures
        method_of(token) == Methods::Get,
{
}

impl Methods {
    /// Parse a method token, defaulting unknown tokens to `GET`.
    pub fn from_bytes(token: &[u8]) -> (r: Methods)
        ensures
            r == method_of(token@),
    {
        if token.len() == 4 && token[0] == 80 && token[1] == 79 && token[2] == 83
            && token[3] == 84 {
            proof {
                assert(token@ =~= seq![80u8, 79u8, 83u8, 84u8]);
            }
            Methods::Post
        } else {
            proof {
                assert(token@ != seq![80u8, 79u8, 83u8, 84u8]);
            }
            Methods::Get
        }
    }

    /// Parse a method token given as text, defaulting unknown tokens to
    /// `GET`.
    pub fn from_name(name: &str) -> (r: Methods)
        ensures
            r == method_of(name.spec_bytes()),
    {
        Methods::from_bytes(name.as_bytes())
    }

    /// The canonical spelling of this method.
    pub open spec fn name_spec(self) -> Seq<char> {
        match self {
            Methods::Get => "GET"@,
            Methods::Post => "POST"@,
        }
    }

    /// The canonical spelling of this method, for status output and logs.
    pub fn name(&self) -> (r: &'static str)
        ensures
            r@ == self.name_spec(),
    {
        match self {
            Methods::Get => "GET",
            Methods::Post => "POST",
        }
    }
}

} // verus!
