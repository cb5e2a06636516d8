//! The ignore engine: glob-style exclusion patterns over relative paths.
//!
//! A pattern is matched against a path anchored at path-segment
//! boundaries. `*` matches any run of non-separator bytes inside one
//! segment, a `**` segment (written `**/` in a pattern) matches zero or
//! more whole segments, and a pattern without any wildcard matches a
//! verbatim contiguous run of whole segments anywhere in the path.
//! A pattern that holds a wildcard is anchored at the end of the path:
//! it matches a run of segments that reaches the last one.

use vstd::prelude::*;

use crate::bytes::bytes_eq;
use crate::bytes::views;

verus! {

/// The path separator byte, `/`.
pub const SLASH: u8 = 47;

/// The wildcard byte, `*`.
pub const STAR: u8 = 42;

/// The comment byte that opens a skipped ignore-file line, `#`.
pub const HASH: u8 = 35;

/// Index of the first occurrence of `sep` in `s`, or `s.len()` if absent.
pub open spec fn spec_find_sep(s: Seq<u8>, sep: u8) -> int
    decreases s.len(),
{
    if s.len() == 0 {
        0
    } else if s[0] == sep {
        0
    } else {
        1 + spec_find_sep(s.skip(1), sep)
    }
}

/// The first occurrence index is in bounds, points at `sep`, and nothing
/// before it is `sep`.
pub proof fn lemma_find_sep(s: Seq<u8>, sep: u8)
    ensures
        0 <= spec_find_sep(s, sep) <= s.len(),
        spec_find_sep(s, sep) < s.len() ==> s[spec_find_sep(s, sep)] == sep,
        forall|j: int| 0 <= j < spec_find_sep(s, sep) ==> s[j] != sep,
    decreases s.len(),
{
    if s.len() == 0 {
    } else if s[0] == sep {
    } else {
        lemma_find_sep(s.skip(1), sep);
        assert forall|j: int| 0 <= j < spec_find_sep(s, sep) implies s[j] != sep by {
            if j > 0 {
                assert(s.skip(1)[j - 1] == s[j]);
                assert(j - 1 < spec_find_sep(s.skip(1), sep));
            }
        }
    }
}

/// If nothing before `m` is `sep` and `s[m]` is `sep`, the first
/// occurrence is exactly `m`; if `s` holds no `sep` at all, it is `s.len()`.
pub proof fn lemma_find_sep_is(s: Seq<u8>, sep: u8, m: int)
    requires
        0 <= m <= s.len(),
        forall|j: int| 0 <= j < m ==> s[j] != sep,
        m < s.len() ==> s[m] == sep,
        m == s.len() ==> forall|j: int| 0 <= j < s.len() ==> s[j] != sep,
    ensures
        spec_find_sep(s, sep) == m,
    decreases s.len(),
{
    if s.len() == 0 {
    } else if s[0] == sep {
        assert(m == 0);
    } else {
        lemma_find_sep_is(s.skip(1), sep, m - 1);
    }
}

/// Split `s` at every occurrence of `sep`.
///
/// Splitting never yields an empty list: a string without `sep` is a
/// single segment, and each separator ends one segment and starts the
/// next, so `a//b` has an empty middle segment.
pub open spec fn spec_split(s: Seq<u8>, sep: u8) -> Seq<Seq<u8>>
    decreases s.len(),
{
    let k = spec_find_sep(s, sep);
    if 0 <= k && k < s.len() {
        seq![s.take(k)] + spec_split(s.skip(k + 1), sep)
    } else {
        seq![s]
    }
}

/// A split always has at least one segment.
pub proof fn lemma_split_nonempty(s: Seq<u8>, sep: u8)
    ensures
        spec_split(s, sep).len() >= 1,
{
    let k = spec_find_sep(s, sep);
    if 0 <= k && k < s.len() {
    } else {
    }
}

/// Does one pattern segment match one path segment?
///
/// `*` matches any run of bytes; every other byte matches itself.
pub open spec fn spec_seg_match(pat: Seq<u8>, s: Seq<u8>) -> bool
    decreases pat.len() + s.len(),
{
    if pat.len() == 0 {
        s.len() == 0
    } else if pat[0] == STAR {
        spec_seg_match(pat.skip(1), s) || (s.len() > 0 && spec_seg_match(pat, s.skip(1)))
    } else {
        s.len() > 0 && pat[0] == s[0] && spec_seg_match(pat.skip(1), s.skip(1))
    }
}

/// Is this pattern segment the `**` segment that matches whole path segments?
pub open spec fn spec_is_globstar(seg: Seq<u8>) -> bool {
    seg.len() == 2 && seg[0] == STAR && seg[1] == STAR
}

/// Does a list of pattern segments match a list of path segments exactly?
///
/// A `**` pattern segment absorbs zero or more path segments; any other
/// pattern segment must match exactly one path segment.
pub open spec fn spec_segs_match(pats: Seq<Seq<u8>>, segs: Seq<Seq<u8>>) -> bool
    decreases pats.len() + segs.len(),
{
    if pats.len() == 0 {
        segs.len() == 0
    } else if spec_is_globstar(pats[0]) {
        spec_segs_match(pats.skip(1), segs) || (segs.len() > 0 && spec_segs_match(
            pats,
            segs.skip(1),
        ))
    } else {
        segs.len() > 0 && spec_seg_match(pats[0], segs[0]) && spec_segs_match(
            pats.skip(1),
            segs.skip(1),
        )
    }
}

/// Does the pattern hold a `*` anywhere?
pub open spec fn spec_has_wildcard(p: Seq<u8>) -> bool {
    exists|i: int| 0 <= i < p.len() && p[i] == STAR
}

/// Leading separators of a pattern, dropped.
pub open spec fn spec_trim_sep_left(s: Seq<u8>, sep: u8) -> Seq<u8>
    decreases s.len(),
{
    if s.len() > 0 && s[0] == sep {
        spec_trim_sep_left(s.skip(1), sep)
    } else {
        s
    }
}

/// Trailing separators of a pattern, dropped.
pub open spec fn spec_trim_sep_right(s: Seq<u8>, sep: u8) -> Seq<u8>
    decreases s.len(),
{
    if s.len() > 0 && s.last() == sep {
        spec_trim_sep_right(s.drop_last(), sep)
    } else {
        s
    }
}

/// The pattern with separators dropped from both ends.
pub open spec fn spec_trim_slashes(s: Seq<u8>) -> Seq<u8> {
    spec_trim_sep_right(spec_trim_sep_left(s, SLASH), SLASH)
}

/// Does `pat` match `path`, anchored at path-segment boundaries?
///
/// The pattern is first stripped of leading and trailing separators and
/// split into segments. With a wildcard it must match a run of segments
/// reaching the end of the path; without one it matches a verbatim run
/// of whole segments anywhere.
pub open spec fn spec_pattern_matches(pat: Seq<u8>, path: Seq<u8>) -> bool {
    let p = spec_trim_slashes(pat);
    let pats = spec_split(p, SLASH);
    let segs = spec_split(path, SLASH);
    if spec_has_wildcard(p) {
        exists|i: int| 0 <= i <= segs.len() && spec_segs_match(pats, segs.skip(i))
    } else {
        exists|i: int|
            0 <= i && i + pats.len() <= segs.len() && pats == #[trigger] segs.subrange(
                i,
                i + pats.len(),
            )
    }
}

/// Is the path excluded by at least one pattern of the set?
pub open spec fn spec_excluded(patterns: Seq<Seq<u8>>, path: Seq<u8>) -> bool {
    exists|k: int| 0 <= k < patterns.len() && spec_pattern_matches(patterns[k], path)
}

/// Does the pattern segment `pat[pi..]` match the path segment `s[si..]`?
fn seg_match_at(pat: &[u8], pi: usize, s: &[u8], si: usize) -> (r: bool)
    requires
        pi <= pat.len(),
        si <= s.len(),
    ensures
        r == spec_seg_match(pat@.skip(pi as int), s@.skip(si as int)),
    decreases pat.len() - pi + s.len() - si,
{
    proof {
        if pi < pat.len() {
            assert(pat@.skip(pi as int).skip(1) =~= pat@.skip(pi as int + 1));
        }
        if si < s.len() {
            assert(s@.skip(si as int).skip(1) =~= s@.skip(si as int + 1));
        }
    }
    if pi == pat.len() {
        si == s.len()
    } else if pat[pi] == STAR {
        if seg_match_at(pat, pi + 1, s, si) {
            true
        } else if si < s.len() {
            seg_match_at(pat, pi, s, si + 1)
        } else {
            false
        }
    } else if si < s.len() && pat[pi] == s[si] {
        seg_match_at(pat, pi + 1, s, si + 1)
    } else {
        false
    }
}

/// Do the pattern segments `pats[pi..]` match the path segments `segs[si..]`?
fn segs_match_at(pats: &Vec<Vec<u8>>, pi: usize, segs: &Vec<Vec<u8>>, si: usize) -> (r: bool)
    requires
        pi <= pats.len(),
        si <= segs.len(),
    ensures
        r == spec_segs_match(views(pats@).skip(pi as int), views(segs@).skip(si as int)),
    decreases pats.len() - pi + segs.len() - si,
{
    proof {
        if pi < pats.len() {
            assert(views(pats@).skip(pi as int).skip(1) =~~= views(pats@).skip(pi as int + 1));
        }
        if si < segs.len() {
            assert(views(segs@).skip(si as int).skip(1) =~~= views(segs@).skip(si as int + 1));
        }
    }
    if pi == pats.len() {
        si == segs.len()
    } else if pats[pi].len() == 2 && pats[pi][0] == STAR && pats[pi][1] == STAR {
        assert(spec_is_globstar(views(pats@).skip(pi as int)[0]));
        if segs_match_at(pats, pi + 1, segs, si) {
            true
        } else if si < segs.len() {
            segs_match_at(pats, pi, segs, si + 1)
        } else {
            false
        }
    } else {
        assert(!spec_is_globstar(views(pats@).skip(pi as int)[0]));
        if si < segs.len() && seg_match_at(pats[pi].as_slice(), 0, segs[si].as_slice(), 0) {
            assert(pats@[pi as int]@.skip(0) =~= views(pats@).skip(pi as int)[0]);
            assert(segs@[si as int]@.skip(0) =~= views(segs@).skip(si as int)[0]);
            segs_match_at(pats, pi + 1, segs, si + 1)
        } else {
            proof {
                if si < segs.len() {
                    assert(pats@[pi as int]@.skip(0) =~= views(pats@).skip(pi as int)[0]);
                    assert(segs@[si as int]@.skip(0) =~= views(segs@).skip(si as int)[0]);
                }
            }
            false
        }
    }
}

/// Split a byte string at every occurrence of `sep`.
pub fn split_bytes(s: &[u8], sep: u8) -> (r: Vec<Vec<u8>>)
    ensures
        views(r@) == spec_split(s@, sep),
{
    let mut out: Vec<Vec<u8>> = Vec::new();
    let mut cur: Vec<u8> = Vec::new();
    let ghost mut start: int = 0int;
    proof {
        assert(s@.skip(0int) =~= s@);
        assert(views(out@) + spec_split(s@, sep) =~~= spec_split(s@, sep));
    }
    let n = s.len();
    let mut i: usize = 0;
    while i < n
        invariant
            n == s.len(),
            0 <= start <= i <= n,
            cur@ == s@.subrange(start, i as int),
            forall|k: int| start <= k < i ==> s@[k] != sep,
            spec_split(s@, sep) == views(out@) + spec_split(s@.skip(start), sep),
        decreases n - i,
    {
        if s[i] == sep {
            proof {
                lemma_find_sep_is(s@.skip(start), sep, i - start);
                assert(s@.skip(start).take(i - start) =~= s@.subrange(start, i as int));
                assert(s@.skip(start).skip(i - start + 1) =~= s@.skip(i + 1));
                assert(views(out@.push(cur)) =~~= views(out@) + seq![cur@]);
            }
            out.push(cur);
            cur = Vec::new();
            proof {
                start = i + 1;
                assert(spec_split(s@, sep) =~~= views(out@) + spec_split(s@.skip(start), sep));
            }
        } else {
            cur.push(s[i]);
            proof {
                assert(cur@ =~= s@.subrange(start, i + 1));
            }
        }
        i = i + 1;
    }
    proof {
        lemma_find_sep_is(s@.skip(start), sep, n - start);
        assert(s@.skip(start) =~= s@.subrange(start, n as int));
        assert(views(out@.push(cur)) =~~= views(out@) + seq![cur@]);
    }
    out.push(cur);
    proof {
        assert(views(out@) =~~= spec_split(s@, sep));
    }
    out
}

/// If everything before `lo` is `sep` and `lo` is the end or a byte that
/// is not `sep`, trimming on the left drops exactly `lo` bytes.
proof fn lemma_trim_left_is(s: Seq<u8>, sep: u8, lo: int)
    requires
        0 <= lo <= s.len(),
        forall|k: int| 0 <= k < lo ==> s[k] == sep,
        lo < s.len() ==> s[lo] != sep,
    ensures
        spec_trim_sep_left(s, sep) == s.skip(lo),
    decreases s.len(),
{
    if lo == 0 {
        assert(s.skip(0) =~= s);
    } else {
        lemma_trim_left_is(s.skip(1), sep, lo - 1);
        assert(s.skip(1).skip(lo - 1) =~= s.skip(lo));
    }
}

/// If everything from `hi` on is `sep` and `hi` is the start or follows a
/// byte that is not `sep`, trimming on the right keeps exactly `hi` bytes.
proof fn lemma_trim_right_is(s: Seq<u8>, sep: u8, hi: int)
    requires
        0 <= hi <= s.len(),
        forall|k: int| hi <= k < s.len() ==> s[k] == sep,
        hi > 0 ==> s[hi - 1] != sep,
    ensures
        spec_trim_sep_right(s, sep) == s.take(hi),
    decreases s.len(),
{
    if hi == s.len() {
        assert(s.take(hi) =~= s);
    } else {
        lemma_trim_right_is(s.drop_last(), sep, hi);
        assert(s.drop_last().take(hi) =~= s.take(hi));
    }
}

/// The pattern with `/` dropped from both ends.
pub fn trim_slashes(p: &[u8]) -> (r: Vec<u8>)
    ensures
        r@ == spec_trim_slashes(p@),
{
    let n = p.len();
    let mut lo: usize = 0;
    while lo < n && p[lo] == SLASH
        invariant
            n == p.len(),
            0 <= lo <= n,
            forall|k: int| 0 <= k < lo ==> p@[k] == SLASH,
        decreases n - lo,
    {
        lo = lo + 1;
    }
    let mut hi: usize = n;
    while hi > lo && p[hi - 1] == SLASH
        invariant
            n == p.len(),
            lo <= hi <= n,
            forall|k: int| hi <= k < n ==> p@[k] == SLASH,
        decreases hi,
    {
        hi = hi - 1;
    }
    proof {
        lemma_trim_left_is(p@, SLASH, lo as int);
        let t = p@.skip(lo as int);
        lemma_trim_right_is(t, SLASH, hi - lo);
        assert(t.take(hi - lo) =~= p@.subrange(lo as int, hi as int));
    }
    let mut out: Vec<u8> = Vec::new();
    let mut i: usize = lo;
    while i < hi
        invariant
            lo <= i <= hi <= p.len(),
            out@ == p@.subrange(lo as int, i as int),
        decreases hi - i,
    {
        out.push(p[i]);
        proof {
            assert(out@ =~= p@.subrange(lo as int, i + 1));
        }
        i = i + 1;
    }
    out
}

/// Does the pattern hold a `*` anywhere?
pub fn has_wildcard(p: &[u8]) -> (r: bool)
    ensures
        r == spec_has_wildcard(p@),
{
    let n = p.len();
    let mut i: usize = 0;
    while i < n
        invariant
            n == p.len(),
            0 <= i <= n,
            forall|k: int| 0 <= k < i ==> p@[k] != STAR,
        decreases n - i,
    {
        if p[i] == STAR {
            return true;
        }
        i = i + 1;
    }
    false
}

/// Does the literal pattern-segment run equal the path-segment run at `at`?
fn run_eq(pats: &Vec<Vec<u8>>, segs: &Vec<Vec<u8>>, at: usize) -> (r: bool)
    requires
        at + pats.len() <= segs.len(),
    ensures
        r == (views(pats@) == views(segs@).subrange(at as int, at + pats@.len())),
{
    let n = pats.len();
    let mut k: usize = 0;
    while k < n
        invariant
            n == pats.len(),
            at + n <= segs.len(),
            0 <= k <= n,
            forall|j: int| 0 <= j < k ==> pats@[j]@ == segs@[at + j]@,
        decreases n - k,
    {
        if !bytes_eq(pats[k].as_slice(), segs[at + k].as_slice()) {
            assert(views(pats@)[k as int] != views(segs@).subrange(at as int, at + pats@.len())[
                k as int
            ]);
            return false;
        }
        k = k + 1;
    }
    proof {
        assert(views(pats@) =~~= views(segs@).subrange(at as int, at + pats@.len()));
    }
    true
}

/// The newline byte that separates ignore-file lines.
pub const NEWLINE: u8 = 10;

/// Bytes trimmed from both ends of an ignore-file line: space, tab and
/// carriage return.
pub open spec fn spec_is_ws(b: u8) -> bool {
    b == 32 || b == 9 || b == 13
}

/// Leading whitespace of a line, dropped.
pub open spec fn spec_trim_ws_left(s: Seq<u8>) -> Seq<u8>
    decreases s.len(),
{
    if s.len() > 0 && spec_is_ws(s[0]) {
        spec_trim_ws_left(s.skip(1))
    } else {
        s
    }
}

/// Trailing whitespace of a line, dropped.
pub open spec fn spec_trim_ws_right(s: Seq<u8>) -> Seq<u8>
    decreases s.len(),
{
    if s.len() > 0 && spec_is_ws(s.last()) {
        spec_trim_ws_right(s.drop_last())
    } else {
        s
    }
}

/// The line with whitespace dropped from both ends.
pub open spec fn spec_trim_ws(s: Seq<u8>) -> Seq<u8> {
    spec_trim_ws_right(spec_trim_ws_left(s))
}

proof fn lemma_trim_ws_left_is(s: Seq<u8>, lo: int)
    requires
        0 <= lo <= s.len(),
        forall|k: int| 0 <= k < lo ==> spec_is_ws(s[k]),
        lo < s.len() ==> !spec_is_ws(s[lo]),
    ensures
        spec_trim_ws_left(s) == s.skip(lo),
    decreases s.len(),
{
    if lo == 0 {
        assert(s.skip(0) =~= s);
    } else {
        lemma_trim_ws_left_is(s.skip(1), lo - 1);
        assert(s.skip(1).skip(lo - 1) =~= s.skip(lo));
    }
}

proof fn lemma_trim_ws_right_is(s: Seq<u8>, hi: int)
    requires
        0 <= hi <= s.len(),
        forall|k: int| hi <= k < s.len() ==> spec_is_ws(s[k]),
        hi > 0 ==> !spec_is_ws(s[hi - 1]),
    ensures
        spec_trim_ws_right(s) == s.take(hi),
    decreases s.len(),
{
    if hi == s.len() {
        assert(s.take(hi) =~= s);
    } else {
        lemma_trim_ws_right_is(s.drop_last(), hi);
        assert(s.drop_last().take(hi) =~= s.take(hi));
    }
}

/// The line with whitespace dropped from both ends.
pub fn trim_ws(p: &[u8]) -> (r: Vec<u8>)
    ensures
        r@ == spec_trim_ws(p@),
{
    let n = p.len();
    let mut lo: usize = 0;
    while lo < n && (p[lo] == 32 || p[lo] == 9 || p[lo] == 13)
        invariant
            n == p.len(),
            0 <= lo <= n,
            forall|k: int| 0 <= k < lo ==> spec_is_ws(p@[k]),
        decreases n - lo,
    {
        lo = lo + 1;
    }
    let mut hi: usize = n;
    while hi > lo && (p[hi - 1] == 32 || p[hi - 1] == 9 || p[hi - 1] == 13)
        invariant
            n == p.len(),
            lo <= hi <= n,
            forall|k: int| hi <= k < n ==> spec_is_ws(p@[k]),
        decreases hi,
    {
        hi = hi - 1;
    }
    proof {
        lemma_trim_ws_left_is(p@, lo as int);
        let t = p@.skip(lo as int);
        lemma_trim_ws_right_is(t, hi - lo);
        assert(t.take(hi - lo) =~= p@.subrange(lo as int, hi as int));
    }
    let mut out: Vec<u8> = Vec::new();
    let mut i: usize = lo;
    while i < hi
        invariant
            lo <= i <= hi <= p.len(),
            out@ == p@.subrange(lo as int, i as int),
        decreases hi - i,
    {
        out.push(p[i]);
        proof {
            assert(out@ =~= p@.subrange(lo as int, i + 1));
        }
        i = i + 1;
    }
    out
}

/// Is a trimmed ignore-file line kept as a pattern?
///
/// Blank lines and lines opening with `#` are skipped.
pub open spec fn spec_keep_line(l: Seq<u8>) -> bool {
    l.len() > 0 && l[0] != HASH
}

/// The trimmed lines of the list that are kept, in order.
pub open spec fn spec_kept_lines(lines: Seq<Seq<u8>>) -> Seq<Seq<u8>>
    decreases lines.len(),
{
    if lines.len() == 0 {
        Seq::empty()
    } else {
        let t = spec_trim_ws(lines[0]);
        (if spec_keep_line(t) {
            seq![t]
        } else {
            Seq::<Seq<u8>>::empty()
        }) + spec_kept_lines(lines.skip(1))
    }
}

/// The patterns an ignore file contributes: its lines, trimmed, with
/// blank and `#`-prefixed lines skipped.
pub open spec fn spec_ignore_lines(content: Seq<u8>) -> Seq<Seq<u8>> {
    spec_kept_lines(spec_split(content, NEWLINE))
}

/// Parse ignore-file content into its kept patterns.
pub fn parse_ignore_lines(content: &[u8]) -> (r: Vec<Vec<u8>>)
    ensures
        views(r@) == spec_ignore_lines(content@),
{
    let lines = split_bytes(content, NEWLINE);
    let ghost lv = views(lines@);
    let mut out: Vec<Vec<u8>> = Vec::new();
    let n = lines.len();
    let mut i: usize = 0;
    proof {
        assert(lv.skip(0) =~~= lv);
        assert(views(out@) + spec_kept_lines(lv) =~~= spec_kept_lines(lv));
    }
    while i < n
        invariant
            n == lines.len(),
            0 <= i <= n,
            views(lines@) == lv,
            lv.len() == n,
            spec_kept_lines(lv) == views(out@) + spec_kept_lines(lv.skip(i as int)),
        decreases n - i,
    {
        let t = trim_ws(lines[i].as_slice());
        proof {
            assert(lv.skip(i as int)[0] == lv[i as int]);
            assert(lv.skip(i as int).skip(1) =~~= lv.skip(i + 1));
        }
        if t.len() > 0 && t[0] != HASH {
            proof {
                assert(views(out@.push(t)) =~~= views(out@) + seq![t@]);
            }
            out.push(t);
            proof {
                assert(spec_kept_lines(lv) =~~= views(out@) + spec_kept_lines(lv.skip(i + 1)));
            }
        } else {
            proof {
                assert(spec_kept_lines(lv) =~~= views(out@) + spec_kept_lines(lv.skip(i + 1)));
            }
        }
        i = i + 1;
    }
    proof {
        assert(lv.skip(n as int) =~~= Seq::<Seq<u8>>::empty());
        assert(views(out@) =~~= spec_kept_lines(lv));
    }
    out
}

/// The built-in default patterns: the version-control directory, the
/// build-output directory, and the dependency lock file.
pub open spec fn spec_default_patterns() -> Seq<Seq<u8>> {
    seq![
        seq![46u8, 103u8, 105u8, 116u8],
        seq![116u8, 97u8, 114u8, 103u8, 101u8, 116u8],
        seq![67u8, 97u8, 114u8, 103u8, 111u8, 46u8, 108u8, 111u8, 99u8, 107u8],
    ]
}

/// A set of exclusion patterns, built-in defaults first, then the
/// workspace ignore file's lines, then any explicit overrides.
///
/// Matching is order-independent: a path is excluded when any pattern
/// matches it.
pub struct IgnoreSet {
    patterns: Vec<Vec<u8>>,
}

impl View for IgnoreSet {
    type V = Seq<Seq<u8>>;

    closed spec fn view(&self) -> Seq<Seq<u8>> {
        views(self.patterns@)
    }
}

impl IgnoreSet {
    /// The engine with only the built-in default patterns.
    pub fn new() -> (r: Self)
        ensures
            r@ == spec_default_patterns(),
    {
        let mut patterns: Vec<Vec<u8>> = Vec::new();
        let git: Vec<u8> = vec![46u8, 103u8, 105u8, 116u8];
        let target: Vec<u8> = vec![116u8, 97u8, 114u8, 103u8, 101u8, 116u8];
        let lock: Vec<u8> = vec![67u8, 97u8, 114u8, 103u8, 111u8, 46u8, 108u8, 111u8, 99u8, 107u8];
        patterns.push(git);
        patterns.push(target);
        patterns.push(lock);
        proof {
            assert(views(patterns@) =~~= spec_default_patterns());
        }
        IgnoreSet { patterns }
    }

    /// The engine with the defaults plus the patterns of one ignore file.
    pub fn with_ignore_file(content: &[u8]) -> (r: Self)
        ensures
            r@ == spec_default_patterns() + spec_ignore_lines(content@),
    {
        let mut s = Self::new();
        let extra = parse_ignore_lines(content);
        let ghost ev = views(extra@);
        let n = extra.len();
        let mut i: usize = 0;
        while i < n
            invariant
                n == extra.len(),
                0 <= i <= n,
                views(extra@) == ev,
                ev.len() == n,
                s@ == spec_default_patterns() + ev.take(i as int),
            decreases n - i,
        {
            let ghost before = s@;
            let p = crate::bytes::to_vec(extra[i].as_slice());
            s.patterns.push(p);
            proof {
                assert(s@ =~~= before.push(ev[i as int]));
                assert(spec_default_patterns() + ev.take(i as int) + seq![ev[i as int]] =~~= spec_default_patterns() + ev.take(i + 1));
            }
            i = i + 1;
        }
        proof {
            assert(ev.take(n as int) =~~= ev);
        }
        s
    }

    /// One explicit override pattern, appended.
    pub fn add_pattern(&mut self, pat: &[u8])
        ensures
            final(self)@ == old(self)@.push(pat@),
    {
        let v = crate::bytes::to_vec(pat);
        self.patterns.push(v);
        proof {
            assert(views(self.patterns@) =~~= old(self)@.push(pat@));
        }
    }

    /// Is the path excluded by at least one pattern of the set?
    pub fn is_excluded(&self, path: &[u8]) -> (r: bool)
        ensures
            r == spec_excluded(self@, path@),
    {
        let n = self.patterns.len();
        let mut i: usize = 0;
        while i < n
            invariant
                n == self.patterns.len(),
                0 <= i <= n,
                forall|k: int| 0 <= k < i ==> !spec_pattern_matches(self@[k], path@),
            decreases n - i,
        {
            if pattern_matches(self.patterns[i].as_slice(), path) {
                assert(spec_pattern_matches(self@[i as int], path@));
                return true;
            }
            i = i + 1;
        }
        assert(self@.len() == n);
        false
    }
}

/// A pattern segment without `*` matches exactly itself.
proof fn lemma_seg_match_literal(lit: Seq<u8>, s: Seq<u8>)
    requires
        forall|k: int| 0 <= k < lit.len() ==> lit[k] != STAR,
    ensures
        spec_seg_match(lit, s) <==> lit == s,
    decreases lit.len(),
{
    if lit.len() == 0 {
        if s.len() == 0 {
            assert(lit =~= s);
        }
    } else if s.len() == 0 {
        assert(lit != s);
    } else {
        lemma_seg_match_literal(lit.skip(1), s.skip(1));
        assert(lit[0] != STAR);
        if spec_seg_match(lit, s) {
            assert(lit.skip(1) == s.skip(1) && lit[0] == s[0]);
            assert forall|j: int| 0 <= j < lit.len() implies lit[j] == s[j] by {
                if j > 0 {
                    assert(lit.skip(1)[j - 1] == s.skip(1)[j - 1]);
                }
            }
            assert(lit =~= s);
        }
        if lit == s {
            assert(lit.skip(1) =~= s.skip(1));
        }
    }
}

/// A pattern segment of `*` followed by a literal matches exactly the
/// segments that end with that literal.
proof fn lemma_star_then_literal(suf: Seq<u8>, s: Seq<u8>)
    requires
        forall|k: int| 0 <= k < suf.len() ==> suf[k] != STAR,
    ensures
        spec_seg_match(seq![STAR] + suf, s) <==> crate::bytes::spec_ends_with(s, suf),
    decreases s.len(),
{
    let pat = seq![STAR] + suf;
    assert(pat[0] == STAR);
    assert(pat.skip(1) =~= suf);
    lemma_seg_match_literal(suf, s);
    if s.len() == 0 {
        if spec_seg_match(pat, s) {
            assert(suf =~= s);
            assert(s.subrange(0, 0) =~= suf);
        }
        if crate::bytes::spec_ends_with(s, suf) {
            assert(suf.len() == 0);
            assert(suf =~= s);
        }
    } else {
        lemma_star_then_literal(suf, s.skip(1));
        let t = s.skip(1);
        if suf.len() <= t.len() {
            assert(t.subrange(t.len() - suf.len(), t.len() as int) =~= s.subrange(
                s.len() - suf.len(),
                s.len() as int,
            ));
            assert(crate::bytes::spec_ends_with(t, suf) == crate::bytes::spec_ends_with(s, suf))
                by {
                if crate::bytes::spec_ends_with(s, suf) {
                    assert(s.subrange(s.len() - suf.len(), s.len() as int) == suf);
                }
            }
        } else {
            assert(!crate::bytes::spec_ends_with(t, suf));
            if crate::bytes::spec_ends_with(s, suf) {
                assert(s.len() == suf.len());
                assert(s.subrange(0, s.len() as int) =~= s);
                assert(suf == s);
            }
        }
        if spec_seg_match(pat, s) {
            assert(suf == s || crate::bytes::spec_ends_with(t, suf));
            if suf == s {
                assert(s.subrange(s.len() - suf.len(), s.len() as int) =~= s);
            }
        }
        if crate::bytes::spec_ends_with(s, suf) {
            if suf == s {
                assert(spec_seg_match(pat, s));
            } else {
                assert(s.len() >= suf.len());
                if s.len() == suf.len() {
                    assert(s.subrange(s.len() - suf.len(), s.len() as int) =~= s);
                    assert(false);
                }
                assert(crate::bytes::spec_ends_with(t, suf));
            }
        }
    }
}

/// A single pattern segment that is not `**` matches the segment runs
/// reaching the path's end exactly when it matches the last segment.
proof fn lemma_single_seg_pattern(ps: Seq<u8>, segs: Seq<Seq<u8>>)
    requires
        !spec_is_globstar(ps),
        segs.len() >= 1,
    ensures
        (exists|i: int| 0 <= i <= segs.len() && spec_segs_match(seq![ps], segs.skip(i)))
            <==> spec_seg_match(ps, segs.last()),
{
    let pats = seq![ps];
    assert(pats.skip(1) =~~= Seq::<Seq<u8>>::empty());
    if exists|i: int| 0 <= i <= segs.len() && spec_segs_match(pats, segs.skip(i)) {
        let i = choose|i: int| 0 <= i <= segs.len() && spec_segs_match(pats, segs.skip(i));
        let t = segs.skip(i);
        assert(t.len() > 0 && spec_seg_match(ps, t[0]) && spec_segs_match(pats.skip(1), t.skip(1)));
        assert(t.skip(1).len() == 0);
        assert(i == segs.len() - 1);
        assert(t[0] == segs.last());
    }
    if spec_seg_match(ps, segs.last()) {
        let i = segs.len() - 1;
        let t = segs.skip(i);
        assert(t.len() == 1);
        assert(t[0] == segs.last());
        assert(t.skip(1).len() == 0);
        assert(pats[0] == ps);
        assert(spec_segs_match(pats.skip(1), t.skip(1)));
        assert(spec_seg_match(pats[0], t[0]));
        assert(spec_segs_match(pats, t));
        assert(0 <= i <= segs.len() && spec_segs_match(pats, segs.skip(i)));
    }
}

/// For a literal with no separator, the path ends with it exactly when
/// the path's last segment ends with it.
proof fn lemma_split_last_suffix(s: Seq<u8>, suf: Seq<u8>)
    requires
        forall|k: int| 0 <= k < suf.len() ==> suf[k] != SLASH,
    ensures
        crate::bytes::spec_ends_with(spec_split(s, SLASH).last(), suf) <==> crate::bytes::spec_ends_with(s, suf),
    decreases s.len(),
{
    lemma_find_sep(s, SLASH);
    let k = spec_find_sep(s, SLASH);
    if 0 <= k && k < s.len() {
        let t = s.skip(k + 1);
        lemma_split_last_suffix(t, suf);
        lemma_split_nonempty(t, SLASH);
        assert(spec_split(s, SLASH).last() == spec_split(t, SLASH).last());
        if suf.len() <= t.len() {
            assert(t.subrange(t.len() - suf.len(), t.len() as int) =~= s.subrange(
                s.len() - suf.len(),
                s.len() as int,
            ));
            if crate::bytes::spec_ends_with(s, suf) {
                assert(crate::bytes::spec_ends_with(t, suf));
            }
            if crate::bytes::spec_ends_with(t, suf) {
                assert(crate::bytes::spec_ends_with(s, suf));
            }
        } else {
            assert(!crate::bytes::spec_ends_with(t, suf));
            if suf.len() <= s.len() {
                let st = s.len() - suf.len();
                assert(st <= k);
                if s.subrange(st, s.len() as int) == suf {
                    assert(s.subrange(st, s.len() as int)[k - st] == s[k]);
                    assert(suf[k - st] == SLASH);
                    assert(false);
                }
            }
        }
    }
}

/// A pattern of `*` followed by a wildcard-free, separator-free literal
/// excludes exactly the paths that end with that literal.
///
/// With the pattern `*.log` this says: a path matches it if and only if
/// the path ends in `.log`.
pub proof fn lemma_star_suffix_matches(pat: Seq<u8>, path: Seq<u8>)
    requires
        pat.len() >= 1,
        pat[0] == STAR,
        forall|k: int| 1 <= k < pat.len() ==> pat[k] != STAR && pat[k] != SLASH,
    ensures
        spec_pattern_matches(pat, path) <==> crate::bytes::spec_ends_with(path, pat.skip(1)),
{
    let suf = pat.skip(1);
    assert(pat[0] != SLASH);
    assert(spec_trim_sep_left(pat, SLASH) == pat);
    assert(pat.last() != SLASH);
    assert(spec_trim_sep_right(pat, SLASH) == pat);
    assert(spec_trim_slashes(pat) == pat);
    assert(forall|j: int| 0 <= j < pat.len() ==> pat[j] != SLASH);
    lemma_find_sep_is(pat, SLASH, pat.len() as int);
    assert(spec_split(pat, SLASH) == seq![pat]);
    assert(spec_has_wildcard(pat)) by {
        assert(pat[0] == STAR);
    }
    assert(!spec_is_globstar(pat));
    let segs = spec_split(path, SLASH);
    lemma_split_nonempty(path, SLASH);
    lemma_single_seg_pattern(pat, segs);
    assert(seq![STAR] + suf =~= pat);
    lemma_star_then_literal(suf, segs.last());
    lemma_split_last_suffix(path, suf);
}

/// Appending such a suffix pattern to a set excludes exactly the paths
/// the set already excluded plus those ending with the literal.
pub proof fn lemma_added_star_suffix_pattern(patterns: Seq<Seq<u8>>, pat: Seq<u8>, path: Seq<u8>)
    requires
        pat.len() >= 1,
        pat[0] == STAR,
        forall|k: int| 1 <= k < pat.len() ==> pat[k] != STAR && pat[k] != SLASH,
    ensures
        spec_excluded(patterns.push(pat), path) <==> spec_excluded(patterns, path)
            || crate::bytes::spec_ends_with(path, pat.skip(1)),
{
    lemma_star_suffix_matches(pat, path);
    let all = patterns.push(pat);
    if spec_excluded(all, path) {
        let k = choose|k: int| 0 <= k < all.len() && spec_pattern_matches(all[k], path);
        if k < patterns.len() {
            assert(patterns[k] == all[k]);
            assert(spec_excluded(patterns, path));
        } else {
            assert(all[k] == pat);
        }
    }
    if spec_excluded(patterns, path) {
        let k = choose|k: int| 0 <= k < patterns.len() && spec_pattern_matches(patterns[k], path);
        assert(all[k] == patterns[k]);
        assert(spec_excluded(all, path));
    }
    if crate::bytes::spec_ends_with(path, pat.skip(1)) {
        assert(all[patterns.len() as int] == pat);
        assert(spec_excluded(all, path));
    }
}

/// Does `pat` match `path`, anchored at path-segment boundaries?
pub fn pattern_matches(pat: &[u8], path: &[u8]) -> (r: bool)
    ensures
        r == spec_pattern_matches(pat@, path@),
{
    let p = trim_slashes(pat);
    let pats = split_bytes(p.as_slice(), SLASH);
    let segs = split_bytes(path, SLASH);
    let ghost pv = views(pats@);
    let ghost sv = views(segs@);
    if has_wildcard(p.as_slice()) {
        let mut i: usize = 0;
        loop
            invariant
                i <= segs.len(),
                views(pats@) == pv,
                views(segs@) == sv,
                sv.len() == segs.len(),
                forall|k: int| 0 <= k < i ==> !spec_segs_match(pv, sv.skip(k)),
            ensures
                i <= segs.len() && spec_segs_match(pv, sv.skip(i as int)) || forall|k: int|
                    0 <= k <= segs.len() ==> !spec_segs_match(pv, sv.skip(k)),
            decreases segs.len() - i,
        {
            if segs_match_at(&pats, 0, &segs, i) {
                proof {
                    assert(pv.skip(0) =~~= pv);
                }
                break ;
            }
            proof {
                assert(pv.skip(0) =~~= pv);
            }
            if i == segs.len() {
                break ;
            }
            i = i + 1;
        }
        if i <= segs.len() && segs_match_at(&pats, 0, &segs, i) {
            proof {
                assert(pv.skip(0) =~~= pv);
                assert(spec_segs_match(pv, sv.skip(i as int)));
            }
            true
        } else {
            proof {
                assert(pv.skip(0) =~~= pv);
            }
            false
        }
    } else {
        if pats.len() > segs.len() {
            assert(forall|i: int|
                0 <= i && i + pv.len() <= sv.len() ==> pv != #[trigger] sv.subrange(
                    i,
                    i + pv.len(),
                )) by {
                assert(pv.len() == pats.len() && sv.len() == segs.len());
            }
            return false;
        }
        let last = segs.len() - pats.len();
        let mut at: usize = 0;
        loop
            invariant
                pats.len() <= segs.len(),
                last == segs.len() - pats.len(),
                0 <= at <= last,
                views(pats@) == pv,
                views(segs@) == sv,
                sv.len() == segs.len(),
                pv.len() == pats.len(),
                forall|k: int| 0 <= k < at ==> pv != #[trigger] sv.subrange(k, k + pv.len()),
            ensures
                at <= last && pv == sv.subrange(at as int, at + pv.len()) || forall|k: int|
                    0 <= k && k + pv.len() <= sv.len() ==> pv != #[trigger] sv.subrange(
                        k,
                        k + pv.len(),
                    ),
            decreases last - at,
        {
            if run_eq(&pats, &segs, at) {
                break ;
            }
            if at == last {
                break ;
            }
            at = at + 1;
        }
        if run_eq(&pats, &segs, at) {
            assert(pv == sv.subrange(at as int, at + pv.len()));
            true
        } else {
            false
        }
    }
}

} // verus!

