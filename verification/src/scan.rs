//! Byte-level scanning primitives: substring search with first-occurrence
//! contracts, on which the page-pattern extractors are built.

use vstd::prelude::*;
use vstd::slice::*;

verus! {

/// The double-quote byte, which delimits attribute values in the page grammar.
pub const QUOTE: u8 = 0x22;

/// `needle` occurs in `hay` starting at position `at`.
pub open spec fn matches_at(hay: Seq<u8>, at: int, needle: Seq<u8>) -> bool {
    &&& 0 <= at
    &&& at + needle.len() <= hay.len()
    &&& forall|k: int| 0 <= k < needle.len() ==> hay[at + k] == needle[k]
}

/// `needle` occurs somewhere in `hay`.
pub open spec fn contains_seq(hay: Seq<u8>, needle: Seq<u8>) -> bool {
    exists|i: int| matches_at(hay, i, needle)
}

/// `e` is the first position at or after `q` holding a double quote, or the
/// length of `hay` if there is none: the exclusive end of the quoted span
/// that starts at `q`.
pub open spec fn is_quote_end(hay: Seq<u8>, q: int, e: int) -> bool {
    &&& q <= e <= hay.len()
    &&& e == hay.len() || hay[e] == QUOTE
    &&& forall|k: int| q <= k < e ==> hay[k] != QUOTE
}

/// A quoted span has exactly one end.
pub proof fn lemma_quote_end_unique(hay: Seq<u8>, q: int, e1: int, e2: int)
    requires
        is_quote_end(hay, q, e1),
        is_quote_end(hay, q, e2),
    ensures
        e1 == e2,
{
    if e1 < e2 {
        assert(hay[e1] != QUOTE);
        assert(hay[e1] == QUOTE);
    }
    if e2 < e1 {
        assert(hay[e2] != QUOTE);
        assert(hay[e2] == QUOTE);
    }
}

/// Whether `needle` occurs in `hay` at exactly position `at`.
pub fn starts_with_at(hay: &[u8], at: usize, needle: &[u8]) -> (r: bool)
    ensures
        r == matches_at(hay@, at as int, needle@),
{
    if at > hay.len() || needle.len() > hay.len() - at {
        return false;
    }
    let mut k: usize = 0;
    while k < needle.len()
        invariant
            at + needle@.len() <= hay@.len(),
            hay@.len() <= usize::MAX,
            k <= needle@.len(),
            forall|j: int| 0 <= j < k ==> hay@[at + j] == needle@[j],
        decreases needle@.len() - k,
    {
        if hay[at + k] != needle[k] {
            return false;
        }
        k = k + 1;
    }
    true
}

/// First occurrence of `needle` in `hay` at or after `from`.
pub fn find_from(hay: &[u8], needle: &[u8], from: usize) -> (r: Option<usize>)
    requires
        needle@.len() > 0,
    ensures
        match r {
            Some(i) => {
                &&& from <= i
                &&& matches_at(hay@, i as int, needle@)
                &&& forall|p: int| from <= p < i ==> !matches_at(hay@, p, needle@)
            },
            None => forall|p: int| from <= p ==> !matches_at(hay@, p, needle@),
        },
{
    let mut i: usize = from;
    while i < hay.len()
        invariant
            from <= i,
            needle@.len() > 0,
            forall|p: int| from <= p < i ==> !matches_at(hay@, p, needle@),
        decreases hay@.len() - i,
    {
        if starts_with_at(hay, i, needle) {
            return Some(i);
        }
        i = i + 1;
    }
    None
}

/// First occurrence of the byte `b` in `hay` at or after `from`.
pub fn find_byte(hay: &[u8], b: u8, from: usize) -> (r: Option<usize>)
    ensures
        match r {
            Some(i) => {
                &&& from <= i < hay@.len()
                &&& hay@[i as int] == b
                &&& forall|p: int| from <= p < i ==> hay@[p] != b
            },
            None => forall|p: int| from <= p < hay@.len() ==> hay@[p] != b,
        },
{
    let mut i: usize = from;
    while i < hay.len()
        invariant
            from <= i,
            forall|p: int| from <= p < i ==> hay@[p] != b,
        decreases hay@.len() - i,
    {
        if hay[i] == b {
            return Some(i);
        }
        i = i + 1;
    }
    None
}

/// The exclusive end of the quoted span that starts at `q`.
pub fn quote_end(hay: &[u8], q: usize) -> (e: usize)
    requires
        q <= hay@.len(),
    ensures
        q <= e <= hay@.len(),
        is_quote_end(hay@, q as int, e as int),
{
    match find_byte(hay, QUOTE, q) {
        Some(i) => i,
        None => hay.len(),
    }
}

/// Whether `needle` occurs anywhere in `hay`.
pub fn contains_sub(hay: &[u8], needle: &[u8]) -> (r: bool)
    requires
        needle@.len() > 0,
    ensures
        r == contains_seq(hay@, needle@),
{
    match find_from(hay, needle, 0) {
        Some(i) => {
            proof {
                assert(matches_at(hay@, i as int, needle@));
            }
            true
        },
        None => false,
    }
}

/// A copy of `hay[a..b]` as an owned vector.
pub fn copy_range(hay: &[u8], a: usize, b: usize) -> (r: Vec<u8>)
    requires
        a <= b <= hay@.len(),
    ensures
        r@ == hay@.subrange(a as int, b as int),
{
    let s = slice_subrange(hay, a, b);
    slice_to_vec(s)
}

/// Appends all of `src` to `dst`.
pub fn append_bytes(dst: &mut Vec<u8>, src: &[u8])
    ensures
        final(dst)@ == old(dst)@ + src@,
{
    let ghost orig = dst@;
    let mut k: usize = 0;
    while k < src.len()
        invariant
            k <= src@.len(),
            dst@ == orig + src@.subrange(0, k as int),
        decreases src@.len() - k,
    {
        let b = src[k];
        dst.push(b);
        proof {
            assert(dst@ =~= orig + src@.subrange(0, k as int + 1));
        }
        k = k + 1;
    }
    proof {
        assert(orig + src@.subrange(0, src@.len() as int) =~= orig + src@);
    }
}

} // verus!
