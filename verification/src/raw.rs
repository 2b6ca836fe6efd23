//! Byte-level line handling for the upstream stream: line ends, trimming,
//! and the bridge from wire bytes to text.

use vstd::prelude::*;
use vstd::slice::{slice_index_get, slice_subrange};
use vstd::utf8::{decode_utf8, valid_utf8};

verus! {

/// Whitespace bytes: space, horizontal tab, carriage return, line feed.
pub open spec fn is_ws_b(b: u8) -> bool {
    b == 32 || b == 9 || b == 13 || b == 10
}

/// First index at or after `i` holding byte `b`, or `s.len()`.
pub open spec fn find_byte_from(s: Seq<u8>, i: int, b: u8) -> int
    decreases s.len() - i,
{
    if i < 0 || i >= s.len() {
        s.len() as int
    } else if s[i] == b {
        i
    } else {
        find_byte_from(s, i + 1, b)
    }
}

/// `find_byte_from` never leaves the range between its start and the length.
pub proof fn lemma_find_byte_from_bounds(s: Seq<u8>, i: int, b: u8)
    requires
        0 <= i <= s.len(),
    ensures
        i <= find_byte_from(s, i, b) <= s.len(),
    decreases s.len() - i,
{
    if i < s.len() && s[i] != b {
        lemma_find_byte_from_bounds(s, i + 1, b);
    }
}

pub open spec fn skip_ws_b_from(s: Seq<u8>, i: int) -> int
    decreases s.len() - i,
{
    if i < 0 || i >= s.len() {
        s.len() as int
    } else if is_ws_b(s[i]) {
        skip_ws_b_from(s, i + 1)
    } else {
        i
    }
}

pub open spec fn trim_end_len_b(s: Seq<u8>) -> int
    decreases s.len(),
{
    if s.len() == 0 {
        0
    } else if is_ws_b(s.last()) {
        trim_end_len_b(s.drop_last())
    } else {
        s.len() as int
    }
}

/// `s` with leading and trailing whitespace bytes removed.
pub open spec fn trim_b(s: Seq<u8>) -> Seq<u8> {
    let a = skip_ws_b_from(s, 0);
    let b = trim_end_len_b(s);
    if a >= b {
        Seq::empty()
    } else {
        s.subrange(a, b)
    }
}

pub fn is_ws_byte(b: u8) -> (r: bool)
    ensures
        r == is_ws_b(b),
{
    b == 32 || b == 9 || b == 13 || b == 10
}

/// First index at or after `from` holding `b`, or the vector's length.
pub fn find_byte(v: &Vec<u8>, from: usize, b: u8) -> (r: usize)
    requires
        from <= v@.len(),
    ensures
        r == find_byte_from(v@, from as int, b),
        from <= r <= v@.len(),
        r < v@.len() ==> v@[r as int] == b,
{
    let n: usize = v.len();
    let mut i: usize = from;
    while i < n
        invariant
            n == v@.len(),
            from <= i <= n,
            find_byte_from(v@, from as int, b) == find_byte_from(v@, i as int, b),
        decreases n - i,
    {
        if v[i] == b {
            return i;
        }
        i += 1;
    }
    i
}

proof fn lemma_trim_end_all_ws_b(t: Seq<u8>)
    requires
        forall|j: int| 0 <= j < t.len() ==> is_ws_b(t[j]),
    ensures
        trim_end_len_b(t) == 0,
    decreases t.len(),
{
    if t.len() > 0 {
        assert(is_ws_b(t.last()));
        lemma_trim_end_all_ws_b(t.drop_last());
    }
}

proof fn lemma_skip_ws_b_prefix(s: Seq<u8>, i: int, a: int)
    requires
        0 <= i,
        skip_ws_b_from(s, i) == a,
    ensures
        forall|j: int| i <= j < a ==> is_ws_b(s[j]),
    decreases s.len() - i,
{
    if i < s.len() && is_ws_b(s[i]) {
        lemma_skip_ws_b_prefix(s, i + 1, a);
    }
}

/// The slice of `s` with leading and trailing whitespace bytes removed.
pub fn trim_slice<'a>(s: &'a [u8]) -> (r: &'a [u8])
    ensures
        r@ == trim_b(s@),
{
    let n: usize = s.len();
    let mut a: usize = 0;
    while a < n && is_ws_byte(*slice_index_get(s, a))
        invariant
            n == s@.len(),
            a <= n,
            skip_ws_b_from(s@, 0) == skip_ws_b_from(s@, a as int),
        decreases n - a,
    {
        a += 1;
    }
    proof {
        assert(skip_ws_b_from(s@, a as int) == a as int);
        assert(s@.subrange(0, s@.len() as int) =~= s@);
    }
    let mut b: usize = n;
    while b > a && is_ws_byte(*slice_index_get(s, b - 1))
        invariant
            n == s@.len(),
            a <= b <= n,
            a == skip_ws_b_from(s@, 0),
            trim_end_len_b(s@) == trim_end_len_b(s@.subrange(0, b as int)),
        decreases b,
    {
        proof {
            assert(s@.subrange(0, b as int).drop_last() =~= s@.subrange(0, b as int - 1));
        }
        b -= 1;
    }
    proof {
        let t = s@.subrange(0, b as int);
        if b == a {
            lemma_skip_ws_b_prefix(s@, 0, a as int);
            assert(forall|j: int| 0 <= j < t.len() ==> is_ws_b(t[j]));
            lemma_trim_end_all_ws_b(t);
            assert(trim_b(s@) =~= Seq::<u8>::empty());
            assert(s@.subrange(a as int, b as int) =~= Seq::<u8>::empty());
        } else {
            assert(t.last() == s@[b as int - 1]);
            assert(trim_end_len_b(t) == b as int);
        }
    }
    slice_subrange(s, a, b)
}

/// Relies on `str::from_utf8`: it accepts exactly the byte strings that are
/// valid UTF-8, and yields the characters they encode.
#[verifier::external_body]
pub fn utf8_to_str<'a>(v: &'a [u8]) -> (r: Option<&'a str>)
    ensures
        r is Some <==> valid_utf8(v@),
        r is Some ==> r->0@ == decode_utf8(v@),
{
    match core::str::from_utf8(v) {
        Ok(s) => Some(s),
        Err(_) => None,
    }
}

} // verus!
