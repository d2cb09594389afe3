//! The request header block: `Name: value` lines read into a flat
//! document.

use vstd::prelude::*;
use crate::bytemap::{insert_pair, pairs_get, ByteMap};
use vstd::slice::slice_subrange;
use crate::bytes::{find, find_spec, lemma_find_spec_bounds, trim, trim_spec};

verus! {

/// Fold header lines into a document from the top down. A line splits
/// at its first colon: the name is what stands before it and the value
/// everything after it, both trimmed of surrounding whitespace. A line
/// with no colon is skipped.
pub open spec fn headers_fold(
    lines: Seq<Seq<u8>>,
    acc: Seq<(Seq<u8>, Seq<u8>)>,
) -> Seq<(Seq<u8>, Seq<u8>)>
    decreases lines.len(),
{
    if lines.len() == 0 {
        acc
    } else {
        let line = lines[0];
        let rest = lines.subrange(1, lines.len() as int);
        match find_spec(line, seq![58u8]) {
            None => headers_fold(rest, acc),
            Some(i) => headers_fold(rest, insert_pair(acc, trim_spec(line.subrange(0, i)),
                trim_spec(line.subrange(i + 1, line.len() as int)))),
        }
    }
}

/// The document the header lines denote.
pub open spec fn headers_of(lines: Seq<Seq<u8>>) -> Seq<(Seq<u8>, Seq<u8>)> {
    headers_fold(lines, Seq::empty())
}

/// The parsed header block: header names mapped to single values,
/// duplicate names overwriting.
#[derive(Debug)]
pub struct Header {
    pub map: ByteMap,
}

impl View for Header {
    type V = Seq<(Seq<u8>, Seq<u8>)>;

    open spec fn view(&self) -> Seq<(Seq<u8>, Seq<u8>)> {
        self.map@
    }
}

impl Header {
    /// Read a header block from its lines.
    #[verifier::loop_isolation(false)]
    pub fn from_lines(lines: &[Vec<u8>]) -> (r: Header)
        ensures
            r@ == headers_of(lines.deep_view()),
    {
        let colon: [u8; 1] = [58];
        proof {
            assert(colon@ =~= seq![58u8]);
        }
        let mut map = ByteMap::new();
        let ghost all = lines.deep_view();
        let n = lines.len();
        let mut i: usize = 0;
        proof {
            assert(all.subrange(0, n as int) =~= all);
        }
        while i < n
            invariant
                n == all.len(),
                n == lines@.len(),
                lines.deep_view() == all,
                0 <= i <= n,
                headers_fold(all.subrange(i as int, n as int), map@) == headers_of(all),
            decreases n - i,
        {
            proof {
                assert(lines.deep_view()[i as int] =~= lines@[i as int]@);
                assert(all.subrange(i as int, n as int)[0] == all[i as int]);
            }
            let line: &[u8] = lines[i].as_slice();
            let llen = line.len();
            proof {
                assert(line@ == all[i as int]);
            }
            match find(line, colon.as_slice()) {
                None => {},
                Some(c) => {
                    proof {
                        lemma_find_spec_bounds(line@, seq![58u8]);
                    }
                    let key = trim(slice_subrange(line, 0, c));
                    let value = trim(slice_subrange(line, c + 1, llen));
                    map.insert(key, value);
                },
            }
            i += 1;
            proof {
                assert(all.subrange(i - 1, n as int).subrange(1, n - i + 1)
                    =~= all.subrange(i as int, n as int));
            }
        }
        proof {
            assert(all.subrange(n as int, n as int) =~= Seq::<Seq<u8>>::empty());
        }
        Header { map }
    }

    /// The value of the header named `k`, if present.
    pub fn get(&self, k: &[u8]) -> (r: Option<&Vec<u8>>)
        ensures
            match r {
                Some(v) => pairs_get(self@, k@) == Some(v@),
                None => pairs_get(self@, k@) is None,
            },
    {
        self.map.get(k)
    }
}

} // verus!
