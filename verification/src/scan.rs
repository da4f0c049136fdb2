//! Byte-level scanning helpers shared by the parser and the resolver.
use vstd::prelude::*;

verus! {

/// A byte that separates tokens on a gitattributes line: space, tab or
/// carriage return.
pub open spec fn is_blank_byte(b: u8) -> bool {
    b == 32 || b == 9 || b == 13
}

/// An ASCII whitespace byte: space, tab, line feed, form feed or carriage
/// return.
pub open spec fn is_ascii_ws_byte(b: u8) -> bool {
    b == 32 || b == 9 || b == 10 || b == 12 || b == 13
}

/// The first index `>= i` at which `s` holds `b`, or `s.len()` if there is
/// none.
pub open spec fn find_byte_from(s: Seq<u8>, b: u8, i: int) -> int
    decreases s.len() - i,
{
    if i < 0 || i >= s.len() {
        s.len() as int
    } else if s[i] == b {
        i
    } else {
        find_byte_from(s, b, i + 1)
    }
}

/// The first index `>= i` at which `s` holds a blank byte, or `s.len()`.
pub open spec fn find_blank_from(s: Seq<u8>, i: int) -> int
    decreases s.len() - i,
{
    if i < 0 || i >= s.len() {
        s.len() as int
    } else if is_blank_byte(s[i]) {
        i
    } else {
        find_blank_from(s, i + 1)
    }
}

/// The first index `>= i` at which `s` holds a non-blank byte, or `s.len()`.
pub open spec fn find_non_blank_from(s: Seq<u8>, i: int) -> int
    decreases s.len() - i,
{
    if i < 0 || i >= s.len() {
        s.len() as int
    } else if !is_blank_byte(s[i]) {
        i
    } else {
        find_non_blank_from(s, i + 1)
    }
}

/// Whether `s` holds the byte `b` anywhere.
pub open spec fn contains_byte(s: Seq<u8>, b: u8) -> bool {
    find_byte_from(s, b, 0) < s.len()
}

pub proof fn lemma_find_byte_bounds(s: Seq<u8>, b: u8, i: int)
    requires
        0 <= i <= s.len(),
    ensures
        i <= find_byte_from(s, b, i) <= s.len(),
        forall|j: int| i <= j < find_byte_from(s, b, i) ==> s[j] != b,
        find_byte_from(s, b, i) < s.len() ==> s[find_byte_from(s, b, i)] == b,
    decreases s.len() - i,
{
    if i < s.len() && s[i] != b {
        lemma_find_byte_bounds(s, b, i + 1);
    }
}

pub proof fn lemma_find_blank_bounds(s: Seq<u8>, i: int)
    requires
        0 <= i <= s.len(),
    ensures
        i <= find_blank_from(s, i) <= s.len(),
        forall|j: int| i <= j < find_blank_from(s, i) ==> !is_blank_byte(s[j]),
        find_blank_from(s, i) < s.len() ==> is_blank_byte(s[find_blank_from(s, i)]),
    decreases s.len() - i,
{
    if i < s.len() && !is_blank_byte(s[i]) {
        lemma_find_blank_bounds(s, i + 1);
    }
}

pub proof fn lemma_find_non_blank_bounds(s: Seq<u8>, i: int)
    requires
        0 <= i <= s.len(),
    ensures
        i <= find_non_blank_from(s, i) <= s.len(),
        forall|j: int| i <= j < find_non_blank_from(s, i) ==> is_blank_byte(s[j]),
        find_non_blank_from(s, i) < s.len() ==> !is_blank_byte(s[find_non_blank_from(s, i)]),
    decreases s.len() - i,
{
    if i < s.len() && is_blank_byte(s[i]) {
        lemma_find_non_blank_bounds(s, i + 1);
    }
}

/// Finds the first occurrence of `b` in `s` at or after `start`.
pub fn find_byte(s: &[u8], b: u8, start: usize) -> (r: usize)
    requires
        start <= s@.len(),
    ensures
        r == find_byte_from(s@, b, start as int),
{
    let mut i: usize = start;
    while i < s.len()
        invariant
            start <= i <= s@.len(),
            find_byte_from(s@, b, start as int) == find_byte_from(s@, b, i as int),
        decreases s@.len() - i,
    {
        if s[i] == b {
            return i;
        }
        i += 1;
    }
    i
}

/// Finds the first blank byte in `s` at or after `start`.
pub fn find_blank(s: &[u8], start: usize) -> (r: usize)
    requires
        start <= s@.len(),
    ensures
        r == find_blank_from(s@, start as int),
{
    let mut i: usize = start;
    while i < s.len()
        invariant
            start <= i <= s@.len(),
            find_blank_from(s@, start as int) == find_blank_from(s@, i as int),
        decreases s@.len() - i,
    {
        let c: u8 = s[i];
        if c == 32 || c == 9 || c == 13 {
            return i;
        }
        i += 1;
    }
    i
}

/// Finds the first non-blank byte in `s` at or after `start`.
pub fn find_non_blank(s: &[u8], start: usize) -> (r: usize)
    requires
        start <= s@.len(),
    ensures
        r == find_non_blank_from(s@, start as int),
{
    let mut i: usize = start;
    while i < s.len()
        invariant
            start <= i <= s@.len(),
            find_non_blank_from(s@, start as int) == find_non_blank_from(s@, i as int),
        decreases s@.len() - i,
    {
        let c: u8 = s[i];
        if !(c == 32 || c == 9 || c == 13) {
            return i;
        }
        i += 1;
    }
    i
}

/// Returns true iff `s` holds the byte `b` anywhere.
pub fn has_byte(s: &[u8], b: u8) -> (r: bool)
    ensures
        r == contains_byte(s@, b),
{
    let j: usize = find_byte(s, b, 0);
    j < s.len()
}

/// Returns true iff every byte of `s` is ASCII whitespace.
pub fn all_ascii_ws(s: &[u8]) -> (r: bool)
    ensures
        r == forall|j: int| 0 <= j < s@.len() ==> is_ascii_ws_byte(s@[j]),
{
    let mut i: usize = 0;
    while i < s.len()
        invariant
            i <= s@.len(),
            forall|j: int| 0 <= j < i ==> is_ascii_ws_byte(s@[j]),
        decreases s@.len() - i,
    {
        let c: u8 = s[i];
        if !(c == 32 || c == 9 || c == 10 || c == 12 || c == 13) {
            return false;
        }
        i += 1;
    }
    true
}

/// Returns true iff `a` and `b` hold the same bytes.
pub fn bytes_eq(a: &[u8], b: &[u8]) -> (r: bool)
    ensures
        r == (a@ == b@),
{
    if a.len() != b.len() {
        assert(a@ != b@);
        return false;
    }
    let mut i: usize = 0;
    while i < a.len()
        invariant
            i <= a@.len(),
            a@.len() == b@.len(),
            forall|j: int| 0 <= j < i ==> a@[j] == b@[j],
        decreases a@.len() - i,
    {
        if a[i] != b[i] {
            assert(a@ != b@);
            return false;
        }
        i += 1;
    }
    assert(a@ =~= b@);
    true
}

/// Returns true iff `s` begins with the bytes of `prefix`.
pub fn starts_with_bytes(s: &[u8], prefix: &[u8]) -> (r: bool)
    ensures
        r == (s@.len() >= prefix@.len() && s@.subrange(0, prefix@.len() as int) == prefix@),
{
    if s.len() < prefix.len() {
        return false;
    }
    let head = vstd::slice::slice_subrange(s, 0, prefix.len());
    bytes_eq(head, prefix)
}

/// Copies a byte slice into a fresh vector.
pub fn copy_bytes(s: &[u8]) -> (r: Vec<u8>)
    ensures
        r@ == s@,
{
    vstd::slice::slice_to_vec(s)
}

} // verus!
