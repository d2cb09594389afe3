//! The response header block and its wire form.

use vstd::prelude::*;
use crate::bytemap::{insert_pair, pairs_get, ByteMap};

verus! {

/// The wire bytes of one header entry: `<name>: <value>\r\n`.
pub open spec fn header_line(p: (Seq<u8>, Seq<u8>)) -> Seq<u8> {
    p.0 + seq![58u8, 32u8] + p.1 + seq![13u8, 10u8]
}

/// The wire bytes of a header block: one line per entry, in insertion
/// order, each line CRLF-terminated.
pub open spec fn header_block(pairs: Seq<(Seq<u8>, Seq<u8>)>) -> Seq<u8>
    decreases pairs.len(),
{
    if pairs.len() == 0 {
        Seq::empty()
    } else {
        header_block(pairs.drop_last()) + header_line(pairs.last())
    }
}

/// The response headers: names mapped to single values, serialized in
/// insertion order.
pub struct Header {
    pub map: ByteMap,
}

impl View for Header {
    type V = Seq<(Seq<u8>, Seq<u8>)>;

    open spec fn view(&self) -> Seq<(Seq<u8>, Seq<u8>)> {
        self.map@
    }
}

impl Header {
    /// The empty header block.
    pub fn new() -> (r: Header)
        ensures
            r@ == Seq::<(Seq<u8>, Seq<u8>)>::empty(),
    {
        Header { map: ByteMap::new() }
    }

    /// Bind a header name to a value, overwriting in place when the
    /// name is already bound.
    pub fn set(&mut self, name: Vec<u8>, value: Vec<u8>)
        ensures
            final(self)@ == insert_pair(old(self)@, name@, value@),
    {
        self.map.insert(name, value);
    }

    /// The value of the header named `name`, if present.
    pub fn get(&self, name: &[u8]) -> (r: Option<&Vec<u8>>)
        ensures
            match r {
                Some(v) => pairs_get(self@, name@) == Some(v@),
                None => pairs_get(self@, name@) is None,
            },
    {
        self.map.get(name)
    }

    /// Append this block's wire bytes to `out`.
    pub fn write_into(&self, out: &mut Vec<u8>)
        ensures
            final(out)@ == old(out)@ + header_block(self@),
    {
        let n = self.map.entries.len();
        let mut i: usize = 0;
        while i < n
            invariant
                n == self@.len(),
                n == self.map.entries@.len(),
                0 <= i <= n,
                out@ == old(out)@ + header_block(self@.subrange(0, i as int)),
            decreases n - i,
        {
            crate::bytes::push_all(out, self.map.entries[i].key.as_slice());
            out.push(58);
            out.push(32);
            crate::bytes::push_all(out, self.map.entries[i].value.as_slice());
            out.push(13);
            out.push(10);
            i += 1;
            proof {
                let pre = self@.subrange(0, i as int);
                assert(pre.drop_last() =~= self@.subrange(0, i - 1));
                assert(pre.last() == self@[i - 1]);
                assert(self@[i - 1].0 == self.map.entries@[i - 1].key@);
                assert(self@[i - 1].1 == self.map.entries@[i - 1].value@);
                assert(out@ =~= old(out)@ + header_block(pre));
            }
        }
        proof {
            assert(self@.subrange(0, n as int) =~= self@);
        }
    }
}

} // verus!
