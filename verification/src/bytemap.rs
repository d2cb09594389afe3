//! An insertion-ordered map from byte-string keys to byte-string values.
//!
//! Query strings, request headers, form bodies and response headers are all
//! flat name/value documents; this one type backs them all. Inserting an
//! existing key overwrites its value in place, so each name maps to a
//! single value.

use vstd::prelude::*;
use crate::bytes::bytes_eq;

verus! {

/// One name/value entry.
#[derive(Debug)]
pub struct MapEntry {
    pub key: Vec<u8>,
    pub value: Vec<u8>,
}

/// A flat name/value document with insertion order.
#[derive(Debug)]
pub struct ByteMap {
    pub entries: Vec<MapEntry>,
}

impl View for ByteMap {
    type V = Seq<(Seq<u8>, Seq<u8>)>;

    open spec fn view(&self) -> Seq<(Seq<u8>, Seq<u8>)> {
        self.entries@.map(|i: int, e: MapEntry| (e.key@, e.value@))
    }
}

/// The position of the first pair with key `k`, or `s.len()` if none.
pub open spec fn key_index(s: Seq<(Seq<u8>, Seq<u8>)>, k: Seq<u8>) -> int
    decreases s.len(),
{
    if s.len() == 0 {
        0
    } else if s[0].0 == k {
        0
    } else {
        1 + key_index(s.subrange(1, s.len() as int), k)
    }
}

/// `key_index` finds the first pair with key `k`: nothing before it has
/// that key, and an index of `s.len()` means no pair has it.
pub proof fn lemma_key_index(s: Seq<(Seq<u8>, Seq<u8>)>, k: Seq<u8>)
    ensures
        0 <= key_index(s, k) <= s.len(),
        key_index(s, k) < s.len() ==> s[key_index(s, k)].0 == k,
        forall|j: int| 0 <= j < key_index(s, k) ==> s[j].0 != k,
    decreases s.len(),
{
    if s.len() == 0 {
    } else if s[0].0 == k {
    } else {
        let tail = s.subrange(1, s.len() as int);
        lemma_key_index(tail, k);
        assert forall|j: int| 0 <= j < key_index(s, k) implies s[j].0 != k by {
            if j > 0 {
                assert(tail[j - 1].0 != k);
            }
        }
    }
}

/// Inserting a key that no pair holds appends the new pair.
pub proof fn lemma_insert_fresh(s: Seq<(Seq<u8>, Seq<u8>)>, k: Seq<u8>, v: Seq<u8>)
    requires
        forall|i: int| 0 <= i < s.len() ==> s[i].0 != k,
    ensures
        insert_pair(s, k, v) == s.push((k, v)),
{
    lemma_key_index(s, k);
    if key_index(s, k) < s.len() {
        assert(s[key_index(s, k)].0 == k);
    }
}

/// `s` with `k` bound to `v`: overwrites the first pair with key `k` in
/// place, or appends a new pair when `k` is absent.
pub open spec fn insert_pair(
    s: Seq<(Seq<u8>, Seq<u8>)>,
    k: Seq<u8>,
    v: Seq<u8>,
) -> Seq<(Seq<u8>, Seq<u8>)> {
    let i = key_index(s, k);
    if i < s.len() {
        s.update(i, (k, v))
    } else {
        s.push((k, v))
    }
}

/// The value bound to `k`, if any: the value of the first pair with key
/// `k`.
pub open spec fn pairs_get(s: Seq<(Seq<u8>, Seq<u8>)>, k: Seq<u8>) -> Option<Seq<u8>> {
    let i = key_index(s, k);
    if i < s.len() {
        Some(s[i].1)
    } else {
        None
    }
}

/// The lowercase hexadecimal digit for `n`.
pub open spec fn hex_digit(n: int) -> u8 {
    if n < 10 {
        (48 + n) as u8
    } else {
        (87 + n) as u8
    }
}

/// How one byte of a string appears inside a JSON string literal:
/// quote and backslash get a backslash escape, the named control bytes
/// get their short escapes, other control bytes a `\u00..` escape, and
/// everything else stands as itself.
pub open spec fn json_escape_byte(b: u8) -> Seq<u8> {
    if b == 34 {
        seq![92u8, 34u8]
    } else if b == 92 {
        seq![92u8, 92u8]
    } else if b == 8 {
        seq![92u8, 98u8]
    } else if b == 9 {
        seq![92u8, 116u8]
    } else if b == 10 {
        seq![92u8, 110u8]
    } else if b == 12 {
        seq![92u8, 102u8]
    } else if b == 13 {
        seq![92u8, 114u8]
    } else if b < 32 {
        seq![92u8, 117u8, 48u8, 48u8, hex_digit(b as int / 16), hex_digit(b as int % 16)]
    } else {
        seq![b]
    }
}

/// A string escaped for inclusion in a JSON string literal.
pub open spec fn json_escape(s: Seq<u8>) -> Seq<u8>
    decreases s.len(),
{
    if s.len() == 0 {
        Seq::empty()
    } else {
        json_escape(s.drop_last()) + json_escape_byte(s.last())
    }
}

/// A JSON string literal: the escaped text between double quotes.
pub open spec fn json_string(s: Seq<u8>) -> Seq<u8> {
    seq![34u8] + json_escape(s) + seq![34u8]
}

/// The members of a JSON object: `"key":"value"` pairs joined by commas.
pub open spec fn json_members(s: Seq<(Seq<u8>, Seq<u8>)>) -> Seq<u8>
    decreases s.len(),
{
    if s.len() == 0 {
        Seq::empty()
    } else if s.len() == 1 {
        json_string(s[0].0) + seq![58u8] + json_string(s[0].1)
    } else {
        json_members(s.drop_last()) + seq![44u8] + json_string(s.last().0) + seq![58u8]
            + json_string(s.last().1)
    }
}

/// A flat document as compact JSON object text, in insertion order.
pub open spec fn json_object(s: Seq<(Seq<u8>, Seq<u8>)>) -> Seq<u8> {
    seq![123u8] + json_members(s) + seq![125u8]
}

/// Append the escaped form of `s` to `out`.
fn escape_into(out: &mut Vec<u8>, s: &[u8])
    ensures
        final(out)@ == old(out)@ + json_escape(s@),
{
    let n = s.len();
    let mut i: usize = 0;
    while i < n
        invariant
            n == s@.len(),
            0 <= i <= n,
            out@ == old(out)@ + json_escape(s@.subrange(0, i as int)),
        decreases n - i,
    {
        let b = s[i];
        if b == 34 {
            out.push(92);
            out.push(34);
        } else if b == 92 {
            out.push(92);
            out.push(92);
        } else if b == 8 {
            out.push(92);
            out.push(98);
        } else if b == 9 {
            out.push(92);
            out.push(116);
        } else if b == 10 {
            out.push(92);
            out.push(110);
        } else if b == 12 {
            out.push(92);
            out.push(102);
        } else if b == 13 {
            out.push(92);
            out.push(114);
        } else if b < 32 {
            out.push(92);
            out.push(117);
            out.push(48);
            out.push(48);
            let hi = b / 16;
            let lo = b % 16;
            out.push(if hi < 10 { 48 + hi } else { 87 + hi });
            out.push(if lo < 10 { 48 + lo } else { 87 + lo });
        } else {
            out.push(b);
        }
        i += 1;
        proof {
            assert(s@.subrange(0, i as int).drop_last() =~= s@.subrange(0, i - 1));
            assert(s@.subrange(0, i as int).last() == s@[i - 1]);
            assert(out@ =~= old(out)@ + json_escape(s@.subrange(0, i as int)));
        }
    }
    proof {
        assert(s@.subrange(0, n as int) =~= s@);
    }
}

/// Append the JSON string literal for `s` to `out`.
fn string_into(out: &mut Vec<u8>, s: &[u8])
    ensures
        final(out)@ == old(out)@ + json_string(s@),
{
    out.push(34);
    escape_into(out, s);
    out.push(34);
    proof {
        assert(out@ =~= old(out)@ + json_string(s@));
    }
}

impl ByteMap {
    /// This document as compact JSON object text, keys in insertion
    /// order, string values only.
    pub fn to_json(&self) -> (r: Vec<u8>)
        ensures
            r@ == json_object(self@),
    {
        let mut out: Vec<u8> = Vec::new();
        out.push(123);
        let n = self.entries.len();
        let mut i: usize = 0;
        while i < n
            invariant
                n == self@.len(),
                n == self.entries@.len(),
                0 <= i <= n,
                out@ == seq![123u8] + json_members(self@.subrange(0, i as int)),
            decreases n - i,
        {
            if i > 0 {
                out.push(44);
            }
            string_into(&mut out, self.entries[i].key.as_slice());
            out.push(58);
            string_into(&mut out, self.entries[i].value.as_slice());
            i += 1;
            proof {
                let pre = self@.subrange(0, i as int);
                assert(pre.drop_last() =~= self@.subrange(0, i - 1));
                assert(pre.last() == self@[i - 1]);
                assert(self@[i - 1].0 == self.entries@[i - 1].key@);
                assert(self@[i - 1].1 == self.entries@[i - 1].value@);
                assert(out@ =~= seq![123u8] + json_members(pre));
            }
        }
        out.push(125);
        proof {
            assert(self@.subrange(0, n as int) =~= self@);
            assert(out@ =~= json_object(self@));
        }
        out
    }

    /// The empty document.
    pub fn new() -> (r: ByteMap)
        ensures
            r@ == Seq::<(Seq<u8>, Seq<u8>)>::empty(),
    {
        let r = ByteMap { entries: Vec::new() };
        proof {
            assert(r@ =~= Seq::<(Seq<u8>, Seq<u8>)>::empty());
        }
        r
    }

    /// The number of entries.
    pub fn len(&self) -> (r: usize)
        ensures
            r == self@.len(),
    {
        self.entries.len()
    }

    /// The position of the first entry with key `k`, or `len` if none.
    fn find_key(&self, k: &[u8]) -> (r: usize)
        ensures
            r == key_index(self@, k@),
    {
        let n = self.entries.len();
        let mut i: usize = 0;
        while i < n
            invariant
                n == self@.len(),
                0 <= i <= n,
                forall|j: int| 0 <= j < i ==> self@[j].0 != k@,
            decreases n - i,
        {
            if bytes_eq(self.entries[i].key.as_slice(), k) {
                proof {
                    assert(self@[i as int].0 == k@);
                    lemma_key_index(self@, k@);
                    let ki = key_index(self@, k@);
                    if ki < i {
                        assert(self@[ki].0 != k@);
                    }
                    if ki > i {
                        assert(self@[i as int].0 != k@);
                    }
                }
                return i;
            }
            i += 1;
        }
        proof {
            lemma_key_index(self@, k@);
            let ki = key_index(self@, k@);
            if ki < n {
                assert(self@[ki].0 != k@);
            }
        }
        n
    }

    /// The value bound to `k`, if any.
    pub fn get(&self, k: &[u8]) -> (r: Option<&Vec<u8>>)
        ensures
            match r {
                Some(v) => pairs_get(self@, k@) == Some(v@),
                None => pairs_get(self@, k@) is None,
            },
    {
        let i = self.find_key(k);
        if i < self.entries.len() {
            Some(&self.entries[i].value)
        } else {
            None
        }
    }

    /// Bind `k` to `v`, overwriting in place when `k` is already bound.
    pub fn insert(&mut self, k: Vec<u8>, v: Vec<u8>)
        ensures
            final(self)@ == insert_pair(old(self)@, k@, v@),
    {
        let i = self.find_key(k.as_slice());
        let ghost old_view = self@;
        if i < self.entries.len() {
            self.entries[i] = MapEntry { key: k, value: v };
            proof {
                assert(self@ =~= old_view.update(i as int, (k@, v@)));
            }
        } else {
            self.entries.push(MapEntry { key: k, value: v });
            proof {
                assert(self@ =~= old_view.push((k@, v@)));
            }
        }
    }

    /// A structural copy of this document.
    pub fn duplicate(&self) -> (r: ByteMap)
        ensures
            r@ == self@,
    {
        let mut out: Vec<MapEntry> = Vec::new();
        let n = self.entries.len();
        let mut i: usize = 0;
        while i < n
            invariant
                n == self.entries@.len(),
                0 <= i <= n,
                out@.len() == i,
                forall|j: int| #![auto] 0 <= j < i ==> out@[j].key@ == self.entries@[j].key@
                    && out@[j].value@ == self.entries@[j].value@,
            decreases n - i,
        {
            let key = self.entries[i].key.clone();
            let value = self.entries[i].value.clone();
            proof {
                assert(key@ =~= self.entries@[i as int].key@);
                assert(value@ =~= self.entries@[i as int].value@);
            }
            out.push(MapEntry { key, value });
            i += 1;
        }
        let r = ByteMap { entries: out };
        proof {
            assert(r@ =~= self@);
        }
        r
    }
}

} // verus!
