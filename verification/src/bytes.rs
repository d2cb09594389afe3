//! Byte-sequence utilities: searching, splitting, trimming, equality,
//! and decimal conversion. The wire format is defined over bytes, so the
//! whole protocol layer is built on these.

use vstd::prelude::*;
use vstd::slice::{slice_subrange, slice_to_vec};

verus! {

/// Carriage return.
pub const CR: u8 = 13;

/// Line feed.
pub const LF: u8 = 10;

/// Space.
pub const SP: u8 = 32;

/// The bytes of `\r\n`, the line terminator.
pub open spec fn crlf() -> Seq<u8> {
    seq![13u8, 10u8]
}

/// The bytes of `\r\n\r\n`, the blank-line marker between head and body.
pub open spec fn blank_marker() -> Seq<u8> {
    seq![13u8, 10u8, 13u8, 10u8]
}

/// `s` holds no carriage return and no line feed.
pub open spec fn crlf_free(s: Seq<u8>) -> bool {
    forall|i: int| 0 <= i < s.len() ==> s[i] != 13 && s[i] != 10
}

/// `pat` occurs in `s` at position `i`.
pub open spec fn match_at(s: Seq<u8>, pat: Seq<u8>, i: int) -> bool {
    &&& 0 <= i
    &&& i + pat.len() <= s.len()
    &&& s.subrange(i, i + pat.len() as int) == pat
}

/// The position of the leftmost occurrence of `pat` in `s`, if any.
/// An empty pattern never matches.
pub open spec fn find_spec(s: Seq<u8>, pat: Seq<u8>) -> Option<int>
    decreases s.len(),
{
    if pat.len() == 0 || s.len() < pat.len() {
        None
    } else if s.subrange(0, pat.len() as int) == pat {
        Some(0)
    } else {
        match find_spec(s.subrange(1, s.len() as int), pat) {
            Some(i) => Some(i + 1),
            None => None,
        }
    }
}

/// `find_spec` returns the leftmost match: a hit is a match with nothing
/// before it, and a miss means there is no match at all.
pub proof fn lemma_find_spec(s: Seq<u8>, pat: Seq<u8>)
    requires
        pat.len() > 0,
    ensures
        match find_spec(s, pat) {
            Some(i) => match_at(s, pat, i) && (forall|j: int|
                0 <= j < i ==> !match_at(s, pat, j)),
            None => forall|j: int| !match_at(s, pat, j),
        },
    decreases s.len(),
{
    if s.len() < pat.len() {
        // no position can fit the pattern
    } else if s.subrange(0, pat.len() as int) == pat {
        // match at 0, nothing before it
    } else {
        let tail = s.subrange(1, s.len() as int);
        lemma_find_spec(tail, pat);
        // a match in s at j >= 1 is a match in tail at j - 1, and back
        assert forall|j: int| 1 <= j implies
            match_at(s, pat, j) == match_at(tail, pat, j - 1) by {
            if 0 <= j - 1 && j - 1 + pat.len() <= tail.len() {
                assert(tail.subrange(j - 1, j - 1 + pat.len() as int)
                    =~= s.subrange(j, j + pat.len() as int));
            }
        }
        match find_spec(s, pat) {
            Some(i) => {
                assert(match_at(tail, pat, i - 1));
                assert forall|j: int| 0 <= j < i implies !match_at(s, pat, j) by {
                    if j == 0 {
                        assert(!match_at(s, pat, 0));
                    } else {
                        assert(!match_at(tail, pat, j - 1));
                    }
                }
            },
            None => {
                assert forall|j: int| true implies !match_at(s, pat, j) by {
                    if j == 0 {
                        assert(!match_at(s, pat, 0));
                    } else if j >= 1 {
                        assert(!match_at(tail, pat, j - 1));
                    }
                }
            },
        }
    }
}

/// Whether `pat` occurs at position `i` of `s`, checked byte by byte.
fn match_here(s: &[u8], pat: &[u8], i: usize) -> (r: bool)
    requires
        i + pat@.len() <= s@.len(),
    ensures
        r == match_at(s@, pat@, i as int),
{
    let n = pat.len();
    let sn = s.len();
    let mut j: usize = 0;
    while j < n
        invariant
            n == pat@.len(),
            sn == s@.len(),
            i + n <= sn,
            0 <= j <= n,
            forall|k: int| 0 <= k < j ==> s@[i + k] == pat@[k],
        decreases n - j,
    {
        if s[i + j] != pat[j] {
            proof {
                assert(s@.subrange(i as int, i + pat@.len() as int)[j as int] != pat@[j as int]);
            }
            return false;
        }
        j += 1;
    }
    proof {
        assert(s@.subrange(i as int, i + pat@.len() as int) =~= pat@);
    }
    true
}

/// Find the leftmost occurrence of `pat` in `s`.
pub fn find(s: &[u8], pat: &[u8]) -> (r: Option<usize>)
    requires
        pat@.len() > 0,
    ensures
        match r {
            Some(i) => find_spec(s@, pat@) == Some(i as int),
            None => find_spec(s@, pat@) is None,
        },
{
    proof {
        lemma_find_spec(s@, pat@);
    }
    if s.len() < pat.len() {
        return None;
    }
    let last = s.len() - pat.len();
    let mut i: usize = 0;
    while i <= last
        invariant
            pat@.len() > 0,
            s@.len() <= usize::MAX,
            last == s@.len() - pat@.len(),
            0 <= i <= last + 1,
            forall|j: int| 0 <= j < i ==> !match_at(s@, pat@, j),
        decreases last + 1 - i,
    {
        if match_here(s, pat, i) {
            proof {
                lemma_find_spec(s@, pat@);
                match find_spec(s@, pat@) {
                    Some(k) => {
                        assert(!(k < i)) by {
                            if k < i {
                                assert(!match_at(s@, pat@, k));
                            }
                        }
                        assert(!(k > i));
                    },
                    None => {
                        assert(!match_at(s@, pat@, i as int));
                    },
                }
            }
            return Some(i);
        }
        i += 1;
    }
    proof {
        assert forall|j: int| true implies !match_at(s@, pat@, j) by {
            if 0 <= j && j + pat@.len() <= s@.len() {
                assert(!match_at(s@, pat@, j));
            }
        }
        lemma_find_spec(s@, pat@);
    }
    None
}

/// The segments of `s` between the occurrences of `pat`, leftmost first,
/// as `str::split` cuts them: a miss yields the whole of `s` as the one
/// segment.
pub open spec fn split_spec(s: Seq<u8>, pat: Seq<u8>) -> Seq<Seq<u8>>
    decreases s.len(),
{
    if pat.len() == 0 {
        seq![s]
    } else {
        match find_spec(s, pat) {
            None => seq![s],
            Some(i) => {
                if 0 <= i && i + pat.len() <= s.len() {
                    seq![s.subrange(0, i)] + split_spec(
                        s.subrange(i + pat.len() as int, s.len() as int),
                        pat,
                    )
                } else {
                    seq![s]
                }
            },
        }
    }
}

/// A hit of `find_spec` lies within `s`.
pub proof fn lemma_find_spec_bounds(s: Seq<u8>, pat: Seq<u8>)
    ensures
        match find_spec(s, pat) {
            Some(i) => 0 <= i && i + pat.len() <= s.len() && pat.len() > 0,
            None => true,
        },
    decreases s.len(),
{
    if pat.len() == 0 || s.len() < pat.len() {
    } else if s.subrange(0, pat.len() as int) == pat {
    } else {
        lemma_find_spec_bounds(s.subrange(1, s.len() as int), pat);
    }
}

/// Split `s` at every occurrence of `pat`.
pub fn split(s: &[u8], pat: &[u8]) -> (r: Vec<Vec<u8>>)
    requires
        pat@.len() > 0,
    ensures
        r.deep_view() == split_spec(s@, pat@),
        r@.len() > 0,
{
    let mut parts: Vec<Vec<u8>> = Vec::new();
    let mut rest: &[u8] = s;
    loop
        invariant
            pat@.len() > 0,
            split_spec(s@, pat@) =~~= parts.deep_view() + split_spec(rest@, pat@),
        decreases rest@.len(),
    {
        let rl = rest.len();
        match find(rest, pat) {
            Some(i) => {
                proof {
                    lemma_find_spec_bounds(rest@, pat@);
                }
                let ghost old_parts = parts.deep_view();
                let ghost old_rest = rest@;
                let piece = slice_to_vec(slice_subrange(rest, 0, i));
                parts.push(piece);
                rest = slice_subrange(rest, i + pat.len(), rl);
                proof {
                    assert(parts.deep_view() =~~= old_parts.push(old_rest.subrange(0, i as int)));
                    assert(split_spec(s@, pat@) =~~= parts.deep_view() + split_spec(rest@, pat@));
                }
            },
            None => {
                let ghost old_parts = parts.deep_view();
                let piece = slice_to_vec(rest);
                parts.push(piece);
                proof {
                    assert(parts.deep_view() =~~= old_parts.push(rest@));
                    assert(parts.deep_view() + Seq::<Seq<u8>>::empty() =~~= parts.deep_view());
                    assert(split_spec(s@, pat@) =~~= parts.deep_view());
                }
                return parts;
            },
        }
    }
}

/// Byte-for-byte equality of two slices.
pub fn bytes_eq(a: &[u8], b: &[u8]) -> (r: bool)
    ensures
        r == (a@ == b@),
{
    if a.len() != b.len() {
        return false;
    }
    let n = a.len();
    let mut i: usize = 0;
    while i < n
        invariant
            n == a@.len() == b@.len(),
            0 <= i <= n,
            forall|k: int| 0 <= k < i ==> a@[k] == b@[k],
        decreases n - i,
    {
        if a[i] != b[i] {
            return false;
        }
        i += 1;
    }
    proof {
        assert(a@ =~= b@);
    }
    true
}

/// ASCII whitespace, the bytes that `trim` strips.
pub open spec fn is_ws(b: u8) -> bool {
    b == 9 || b == 10 || b == 11 || b == 12 || b == 13 || b == 32
}

/// `s` without leading whitespace.
pub open spec fn trim_front_spec(s: Seq<u8>) -> Seq<u8>
    decreases s.len(),
{
    if s.len() > 0 && is_ws(s[0]) {
        trim_front_spec(s.subrange(1, s.len() as int))
    } else {
        s
    }
}

/// `s` without trailing whitespace.
pub open spec fn trim_back_spec(s: Seq<u8>) -> Seq<u8>
    decreases s.len(),
{
    if s.len() > 0 && is_ws(s[s.len() - 1]) {
        trim_back_spec(s.subrange(0, s.len() - 1))
    } else {
        s
    }
}

/// `s` without leading and trailing whitespace.
pub open spec fn trim_spec(s: Seq<u8>) -> Seq<u8> {
    trim_back_spec(trim_front_spec(s))
}

proof fn lemma_trim_front(s: Seq<u8>, i: int)
    requires
        0 <= i <= s.len(),
        forall|k: int| 0 <= k < i ==> is_ws(s[k]),
        i < s.len() ==> !is_ws(s[i]),
    ensures
        trim_front_spec(s) =~= s.subrange(i, s.len() as int),
    decreases i,
{
    if i == 0 {
        if s.len() > 0 {
            assert(!is_ws(s[0]));
        }
        assert(trim_front_spec(s) =~= s.subrange(0, s.len() as int));
    } else {
        let tail = s.subrange(1, s.len() as int);
        lemma_trim_front(tail, i - 1);
        assert(tail.subrange(i - 1, tail.len() as int) =~= s.subrange(i, s.len() as int));
    }
}

proof fn lemma_trim_back(s: Seq<u8>, j: int)
    requires
        0 <= j <= s.len(),
        forall|k: int| j <= k < s.len() ==> is_ws(s[k]),
        j > 0 ==> !is_ws(s[j - 1]),
    ensures
        trim_back_spec(s) =~= s.subrange(0, j),
    decreases s.len() - j,
{
    if j == s.len() {
        if j > 0 {
            assert(!is_ws(s[s.len() - 1]));
        }
        assert(trim_back_spec(s) =~= s.subrange(0, j));
    } else {
        let head = s.subrange(0, s.len() - 1);
        lemma_trim_back(head, j);
    }
}

/// Strip leading and trailing ASCII whitespace.
pub fn trim(s: &[u8]) -> (r: Vec<u8>)
    ensures
        r@ == trim_spec(s@),
{
    let n = s.len();
    let mut i: usize = 0;
    while i < n && (s[i] == 9 || s[i] == 10 || s[i] == 11 || s[i] == 12 || s[i] == 13
        || s[i] == 32)
        invariant
            n == s@.len(),
            0 <= i <= n,
            forall|k: int| 0 <= k < i ==> is_ws(s@[k]),
        decreases n - i,
    {
        i += 1;
    }
    proof {
        lemma_trim_front(s@, i as int);
    }
    let mut j: usize = n;
    while j > i && (s[j - 1] == 9 || s[j - 1] == 10 || s[j - 1] == 11 || s[j - 1] == 12
        || s[j - 1] == 13 || s[j - 1] == 32)
        invariant
            n == s@.len(),
            0 <= i <= j <= n,
            forall|k: int| 0 <= k < i ==> is_ws(s@[k]),
            forall|k: int| j <= k < n ==> is_ws(s@[k]),
        decreases j,
    {
        j -= 1;
    }
    let ghost front = s@.subrange(i as int, n as int);
    proof {
        // the trimmed-front sequence seen from index i
        assert forall|k: int| j - i <= k < front.len() implies is_ws(front[k]) by {
            assert(front[k] == s@[i + k]);
        }
        if j > i {
            assert(front[j - i - 1] == s@[j - 1]);
        }
        lemma_trim_back(front, j - i);
        assert(front.subrange(0, j - i) =~= s@.subrange(i as int, j as int));
    }
    slice_to_vec(slice_subrange(s, i, j))
}

/// An ASCII decimal digit.
pub open spec fn is_digit(b: u8) -> bool {
    48 <= b <= 57
}

/// Every byte of `s` is a decimal digit.
pub open spec fn all_digits(s: Seq<u8>) -> bool {
    forall|i: int| 0 <= i < s.len() ==> is_digit(s[i])
}

/// The number the digit string `s` denotes, most significant digit first.
pub open spec fn dec_value(s: Seq<u8>) -> int
    decreases s.len(),
{
    if s.len() == 0 {
        0
    } else {
        dec_value(s.drop_last()) * 10 + (s.last() - 48)
    }
}

/// The decimal digits of `n`, without leading zeros (a single `0` for 0).
pub open spec fn dec_bytes(n: int) -> Seq<u8>
    decreases n,
{
    if n < 10 {
        seq![(48 + if n >= 0 { n } else { 0 }) as u8]
    } else {
        dec_bytes(n / 10).push((48 + n % 10) as u8)
    }
}

/// A digit string denotes a non-negative number.
pub proof fn lemma_dec_value_nonneg(s: Seq<u8>)
    requires
        all_digits(s),
    ensures
        dec_value(s) >= 0,
    decreases s.len(),
{
    if s.len() > 0 {
        assert(all_digits(s.drop_last())) by {
            assert(forall|i: int| 0 <= i < s.len() - 1 ==> s.drop_last()[i] == s[i]);
        }
        lemma_dec_value_nonneg(s.drop_last());
    }
}

/// Digit strings grow with their prefixes: a prefix never denotes more
/// than the whole.
pub proof fn lemma_dec_value_prefix(s: Seq<u8>, k: int)
    requires
        all_digits(s),
        0 <= k <= s.len(),
    ensures
        dec_value(s.subrange(0, k)) <= dec_value(s),
    decreases s.len() - k,
{
    if k == s.len() {
        assert(s.subrange(0, k) =~= s);
    } else {
        let t = s.subrange(0, k + 1);
        assert(all_digits(t)) by {
            assert(forall|i: int| 0 <= i < t.len() ==> t[i] == s[i]);
        }
        assert(t.drop_last() =~= s.subrange(0, k));
        lemma_dec_value_nonneg(s.subrange(0, k));
        assert(dec_value(t) == dec_value(s.subrange(0, k)) * 10 + (t.last() - 48));
        assert(dec_value(s.subrange(0, k)) * 10 >= dec_value(s.subrange(0, k)));
        lemma_dec_value_prefix(s, k + 1);
    }
}

/// Rendering a number and reading it back returns the number.
pub proof fn lemma_dec_round_trip(n: int)
    requires
        n >= 0,
    ensures
        all_digits(dec_bytes(n)),
        dec_value(dec_bytes(n)) == n,
        dec_bytes(n).len() > 0,
    decreases n,
{
    if n < 10 {
        let d = dec_bytes(n);
        assert(d == seq![(48 + n) as u8]);
        assert(d.drop_last() =~= Seq::<u8>::empty());
        assert(dec_value(Seq::<u8>::empty()) == 0);
        assert(dec_value(d.drop_last()) == 0);
        assert(dec_value(d) == d.last() - 48);
        assert(d.last() == (48 + n) as u8);
        assert(d.last() - 48 == n);
    } else {
        lemma_dec_round_trip(n / 10);
        let d = dec_bytes(n);
        assert(d.drop_last() =~= dec_bytes(n / 10));
        assert(0 <= n % 10 < 10);
        assert(d.last() == (48 + n % 10) as u8);
        assert(d.last() - 48 == n % 10);
        assert(dec_value(d) == dec_value(d.drop_last()) * 10 + (d.last() - 48));
        assert(dec_value(d) == (n / 10) * 10 + n % 10);
        assert(n == (n / 10) * 10 + n % 10) by {
            vstd::arithmetic::div_mod::lemma_fundamental_div_mod(n, 10);
        }
    }
}

/// Parse an unsigned decimal number. `None` when `s` is empty, holds a
/// non-digit, or denotes a number above `usize::MAX`.
pub fn parse_dec(s: &[u8]) -> (r: Option<usize>)
    ensures
        match r {
            Some(v) => s@.len() > 0 && all_digits(s@) && v == dec_value(s@),
            None => s@.len() == 0 || !all_digits(s@) || dec_value(s@) > usize::MAX,
        },
{
    let n = s.len();
    if n == 0 {
        return None;
    }
    let mut val: usize = 0;
    let mut i: usize = 0;
    while i < n
        invariant
            n == s@.len(),
            0 <= i <= n,
            forall|k: int| 0 <= k < i ==> is_digit(s@[k]),
            val == dec_value(s@.subrange(0, i as int)),
        decreases n - i,
    {
        let b = s[i];
        if b < 48 || b > 57 {
            return None;
        }
        let d = (b - 48) as usize;
        proof {
            assert(s@.subrange(0, i + 1).drop_last() =~= s@.subrange(0, i as int));
        }
        if val > (usize::MAX - d) / 10 {
            proof {
                assert(all_digits(s@.subrange(0, i + 1))) by {
                    assert(forall|k: int| 0 <= k < i + 1
                        ==> s@.subrange(0, i + 1)[k] == s@[k]);
                }
                assert(val * 10 + d > usize::MAX) by (nonlinear_arith)
                    requires val > (usize::MAX - d) / 10, d <= 9;
                assert(dec_value(s@.subrange(0, i + 1)) == val * 10 + d);
                if all_digits(s@) {
                    lemma_dec_value_prefix(s@, i + 1);
                }
            }
            return None;
        }
        proof {
            assert(val * 10 + d <= usize::MAX) by (nonlinear_arith)
                requires val <= (usize::MAX - d) / 10, d <= 9, val >= 0;
        }
        val = val * 10 + d;
        i += 1;
        proof {
            assert(val == dec_value(s@.subrange(0, i as int)));
        }
    }
    proof {
        assert(s@.subrange(0, n as int) =~= s@);
    }
    Some(val)
}

/// Append a whole slice to a byte vector.
pub fn push_all(v: &mut Vec<u8>, s: &[u8])
    ensures
        final(v)@ == old(v)@ + s@,
{
    v.extend_from_slice(s);
    proof {
        assert(v@ =~= old(v)@ + s@);
    }
}

/// The decimal digits of `n`, for status lines and `Content-Length`.
pub fn render_dec(n: u64) -> (r: Vec<u8>)
    ensures
        r@ == dec_bytes(n as int),
    decreases n,
{
    if n < 10 {
        let mut v: Vec<u8> = Vec::new();
        v.push(48 + n as u8);
        proof {
            assert(v@ =~= dec_bytes(n as int));
        }
        v
    } else {
        let mut v = render_dec(n / 10);
        v.push(48 + (n % 10) as u8);
        proof {
            assert(v@ =~= dec_bytes(n as int));
        }
        v
    }
}

} // verus!
