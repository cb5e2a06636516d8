//! Small verified helpers on byte strings.
//!
//! Package names, paths and log lines travel through the library as raw
//! bytes; these helpers give them equality, concatenation and substring
//! search with exact contracts.

use vstd::prelude::*;

verus! {

/// True when `needle` occurs in `haystack` starting at `at`.
pub open spec fn spec_occurs_at(haystack: Seq<u8>, needle: Seq<u8>, at: int) -> bool {
    &&& 0 <= at
    &&& at + needle.len() <= haystack.len()
    &&& haystack.subrange(at, at + needle.len()) == needle
}

/// True when `needle` occurs somewhere in `haystack`.
pub open spec fn spec_contains(haystack: Seq<u8>, needle: Seq<u8>) -> bool {
    exists|at: int| spec_occurs_at(haystack, needle, at)
}

/// True when `suffix` ends `s`.
pub open spec fn spec_ends_with(s: Seq<u8>, suffix: Seq<u8>) -> bool {
    suffix.len() <= s.len() && s.subrange(s.len() - suffix.len(), s.len() as int) == suffix
}

/// True when `prefix` starts `s`.
pub open spec fn spec_starts_with(s: Seq<u8>, prefix: Seq<u8>) -> bool {
    prefix.len() <= s.len() && s.subrange(0, prefix.len() as int) == prefix
}

/// The views of a list of byte vectors.
pub open spec fn views(v: Seq<Vec<u8>>) -> Seq<Seq<u8>> {
    v.map_values(|x: Vec<u8>| x@)
}

/// Byte-for-byte equality of two slices.
pub fn bytes_eq(a: &[u8], b: &[u8]) -> (r: bool)
    ensures
        r == (a@ == b@),
{
    if a.len() != b.len() {
        assert(a@ != b@) by {
            assert(a@.len() != b@.len());
        }
        return false;
    }
    let n = a.len();
    let mut i: usize = 0;
    while i < n
        invariant
            n == a.len() == b.len(),
            0 <= i <= n,
            forall|k: int| 0 <= k < i ==> a@[k] == b@[k],
        decreases n - i,
    {
        if a[i] != b[i] {
            return false;
        }
        i = i + 1;
    }
    assert(a@ =~= b@);
    true
}

/// True when `needle` occurs in `haystack` starting at `at`.
pub fn occurs_at(haystack: &[u8], needle: &[u8], at: usize) -> (r: bool)
    requires
        at + needle.len() <= haystack.len(),
    ensures
        r == spec_occurs_at(haystack@, needle@, at as int),
{
    let n = needle.len();
    let mut i: usize = 0;
    while i < n
        invariant
            at + n <= haystack.len(),
            n == needle.len(),
            0 <= i <= n,
            forall|k: int| 0 <= k < i ==> haystack@[at + k] == needle@[k],
        decreases n - i,
    {
        if haystack[at + i] != needle[i] {
            assert(haystack@.subrange(at as int, at + needle@.len())[i as int] != needle@[i as int]);
            return false;
        }
        i = i + 1;
    }
    assert(haystack@.subrange(at as int, at + needle@.len()) =~= needle@);
    true
}

/// Substring search: does `needle` occur anywhere in `haystack`?
pub fn contains_bytes(haystack: &[u8], needle: &[u8]) -> (r: bool)
    ensures
        r == spec_contains(haystack@, needle@),
{
    if needle.len() > haystack.len() {
        assert(!spec_contains(haystack@, needle@));
        return false;
    }
    let last = haystack.len() - needle.len();
    let mut at: usize = 0;
    loop
        invariant
            needle.len() <= haystack.len(),
            last == haystack.len() - needle.len(),
            0 <= at <= last,
            forall|k: int| 0 <= k < at ==> !spec_occurs_at(haystack@, needle@, k),
        ensures
            at <= last && spec_occurs_at(haystack@, needle@, at as int)
                || forall|k: int| 0 <= k <= last ==> !spec_occurs_at(haystack@, needle@, k),
        decreases last - at,
    {
        if occurs_at(haystack, needle, at) {
            break ;
        }
        if at == last {
            break ;
        }
        at = at + 1;
    }
    if occurs_at(haystack, needle, at) {
        assert(spec_contains(haystack@, needle@));
        true
    } else {
        assert forall|k: int| !spec_occurs_at(haystack@, needle@, k) by {
            if 0 <= k <= last {
                assert(!spec_occurs_at(haystack@, needle@, k));
            }
        }
        false
    }
}

/// True when `suffix` ends `s`.
pub fn ends_with(s: &[u8], suffix: &[u8]) -> (r: bool)
    ensures
        r == spec_ends_with(s@, suffix@),
{
    if suffix.len() > s.len() {
        return false;
    }
    let at = s.len() - suffix.len();
    occurs_at(s, suffix, at)
}

/// True when `prefix` starts `s`.
pub fn starts_with(s: &[u8], prefix: &[u8]) -> (r: bool)
    ensures
        r == spec_starts_with(s@, prefix@),
{
    if prefix.len() > s.len() {
        return false;
    }
    occurs_at(s, prefix, 0)
}

/// Append all of `src` to `dst`.
pub fn extend_bytes(dst: &mut Vec<u8>, src: &[u8])
    ensures
        final(dst)@ == old(dst)@ + src@,
{
    let n = src.len();
    let mut i: usize = 0;
    while i < n
        invariant
            n == src.len(),
            0 <= i <= n,
            dst@ == old(dst)@ + src@.take(i as int),
        decreases n - i,
    {
        dst.push(src[i]);
        assert(old(dst)@ + src@.take(i as int) + seq![src@[i as int]] =~= old(dst)@ + src@.take(
            i + 1,
        ));
        i = i + 1;
    }
    assert(old(dst)@ + src@.take(n as int) =~= old(dst)@ + src@);
}

/// Copy the range `[from, to)` of a slice into a fresh vector.
pub fn copy_range(src: &[u8], from: usize, to: usize) -> (r: Vec<u8>)
    requires
        from <= to <= src.len(),
    ensures
        r@ == src@.subrange(from as int, to as int),
{
    let mut out: Vec<u8> = Vec::new();
    let mut i: usize = from;
    while i < to
        invariant
            from <= i <= to <= src.len(),
            out@ == src@.subrange(from as int, i as int),
        decreases to - i,
    {
        out.push(src[i]);
        proof {
            assert(out@ =~= src@.subrange(from as int, i + 1));
        }
        i = i + 1;
    }
    out
}

/// Copy a slice into a fresh vector.
pub fn to_vec(src: &[u8]) -> (r: Vec<u8>)
    ensures
        r@ == src@,
{
    let mut out: Vec<u8> = Vec::new();
    extend_bytes(&mut out, src);
    assert(out@ =~= src@);
    out
}

} // verus!
