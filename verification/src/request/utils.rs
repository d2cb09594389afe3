//! The flat `key=value` parser shared by query strings and form bodies.

use vstd::prelude::*;
use vstd::slice::slice_to_vec;
use crate::bytemap::{insert_pair, ByteMap};
use crate::bytes::{split, split_spec};
use crate::errors::ParseError;

verus! {

/// Fold the `&`-separated segments into a document from left to right.
/// An empty segment holds no pair and is skipped; a non-empty segment
/// with no `=` is fatal; otherwise the name is what stands before the
/// first `=` and the value what stands between the first and the
/// second.
pub open spec fn kv_fold(
    pairs: Seq<Seq<u8>>,
    acc: Seq<(Seq<u8>, Seq<u8>)>,
) -> Option<Seq<(Seq<u8>, Seq<u8>)>>
    decreases pairs.len(),
{
    if pairs.len() == 0 {
        Some(acc)
    } else if pairs[0].len() == 0 {
        kv_fold(pairs.subrange(1, pairs.len() as int), acc)
    } else {
        let parts = split_spec(pairs[0], seq![61u8]);
        if parts.len() < 2 {
            None
        } else {
            kv_fold(pairs.subrange(1, pairs.len() as int), insert_pair(acc, parts[0], parts[1]))
        }
    }
}

/// The document a raw `k=v&k=v` string denotes, or `None` where a
/// non-empty pair has no `=`.
pub open spec fn kv_of(s: Seq<u8>) -> Option<Seq<(Seq<u8>, Seq<u8>)>> {
    kv_fold(split_spec(s, seq![38u8]), Seq::empty())
}

/// Parse a raw `k=v&k=v` string into a flat document.
#[verifier::loop_isolation(false)]
pub fn parse_kv(s: &[u8]) -> (r: Result<ByteMap, ParseError>)
    ensures
        match r {
            Ok(m) => kv_of(s@) == Some(m@),
            Err(e) => kv_of(s@) is None && e == ParseError::BadPair,
        },
{
    let mut m = ByteMap::new();
    let amp: [u8; 1] = [38];
    let eq: [u8; 1] = [61];
    proof {
        assert(amp@ =~= seq![38u8]);
        assert(eq@ =~= seq![61u8]);
    }
    let pairs = split(s, amp.as_slice());
    let ghost all = pairs.deep_view();
    let n = pairs.len();
    let mut i: usize = 0;
    proof {
        assert(all.subrange(0, n as int) =~= all);
    }
    while i < n
        invariant
            n == all.len(),
            n == pairs@.len(),
            pairs.deep_view() == all,
            0 <= i <= n,
            kv_fold(all.subrange(i as int, n as int), m@) == kv_of(s@),
        decreases n - i,
    {
        proof {
            assert(pairs.deep_view()[i as int] =~= pairs@[i as int]@);
            assert(all.subrange(i as int, n as int)[0] == all[i as int]);
        }
        let pair_i: &[u8] = pairs[i].as_slice();
        proof {
            assert(pair_i@ == all[i as int]);
        }
        if pair_i.len() > 0 {
            let parts = split(pair_i, eq.as_slice());
            if parts.len() < 2 {
                return Err(ParseError::BadPair);
            }
            let key = slice_to_vec(parts[0].as_slice());
            let value = slice_to_vec(parts[1].as_slice());
            proof {
                assert(parts.deep_view()[0] =~= parts@[0]@);
                assert(parts.deep_view()[1] =~= parts@[1]@);
            }
            m.insert(key, value);
        }
        i += 1;
        proof {
            let rem = all.subrange(i - 1, n as int);
            assert(rem.subrange(1, rem.len() as int)
                =~= all.subrange(i as int, n as int));
        }
    }
    proof {
        assert(all.subrange(n as int, n as int) =~= Seq::<Seq<u8>>::empty());
    }
    Ok(m)
}

} // verus!
