//! The lens laws of the `<braid-seed>` injection (`find_injection_point` as
//! `get`, `inject` as `set`), with the locality facts about lines and code
//! fences that they rest on.
use vstd::prelude::*;
use crate::text::{
    contains, lemma_nl_from, lemma_skip_ws_bounds,
    nl_from, occurs_at, skip_ws, ws_width,
};
use crate::inject::{
    block_open_at, close_tag, content_start_after, fence, first_live_close, in_block,
    is_fence_line, is_line_start, lemma_first_live_close, lemma_first_live_close_is, live_close,
    lemma_line_start, lemma_line_start_within, lemma_open_tags_apart, line_start, live_open,
    open_tag, spec_find, spec_get, spec_inject, tag_end_after, with_newline,
};

verus! {

// ---------------------------------------------------------------------------
// Locality of white space, line ends and fences
// ---------------------------------------------------------------------------

/// A white-space character lying within `len` bytes from `i` in `s` is the
/// same one at `j` in `r` when those bytes agree.
proof fn lemma_ws_shift(s: Seq<u8>, r: Seq<u8>, i: int, j: int, len: int)
    requires
        0 <= i,
        0 <= j,
        0 < len,
        i + len <= s.len(),
        j + len <= r.len(),
        s.subrange(i, i + len) == r.subrange(j, j + len),
    ensures
        (ws_width(s, i) > 0 && ws_width(s, i) <= len) == (ws_width(r, j) > 0 && ws_width(r, j)
            <= len),
        ws_width(s, i) > 0 && ws_width(s, i) <= len ==> ws_width(s, i) == ws_width(r, j),
{
    assert(s[i] == s.subrange(i, i + len)[0]);
    assert(r[j] == r.subrange(j, j + len)[0]);
    if len >= 2 {
        assert(s[i + 1] == s.subrange(i, i + len)[1]);
        assert(r[j + 1] == r.subrange(j, j + len)[1]);
    }
    if len >= 3 {
        assert(s[i + 2] == s.subrange(i, i + len)[2]);
        assert(r[j + 2] == r.subrange(j, j + len)[2]);
    }
}

/// Skipping white space over agreeing byte ranges stops at the same place.
proof fn lemma_skip_shift(s: Seq<u8>, r: Seq<u8>, i: int, j: int, len: int)
    requires
        0 <= i,
        0 <= j,
        0 <= len,
        i + len <= s.len(),
        j + len <= r.len(),
        s.subrange(i, i + len) == r.subrange(j, j + len),
    ensures
        skip_ws(s, i, i + len) - i == skip_ws(r, j, j + len) - j,
    decreases len,
{
    if len > 0 {
        lemma_ws_shift(s, r, i, j, len);
        let w = ws_width(s, i);
        if w > 0 && w <= len {
            assert(s.subrange(i + w, i + len) =~= s.subrange(i, i + len).subrange(w, len));
            assert(r.subrange(j + w, j + len) =~= r.subrange(j, j + len).subrange(w, len));
            lemma_skip_shift(s, r, i + w, j + w, len - w);
        }
    }
}

/// A white-space character starting before an ASCII non-white-space byte at
/// `q` ends at or before `q`, so the skip stops the same with `q` or any
/// later bound.
proof fn lemma_skip_stop(s: Seq<u8>, i: int, q: int, h: int)
    requires
        0 <= i <= q < h <= s.len(),
        s[q] < 0x80,
        ws_width(s, q) == 0,
    ensures
        skip_ws(s, i, h) == skip_ws(s, i, q),
        skip_ws(s, i, q) <= q,
    decreases q - i,
{
    lemma_skip_ws_bounds(s, i, q);
    if i < q {
        let w = ws_width(s, i);
        if w > 0 {
            if w >= 2 {
                assert(s[i + 1] >= 0x80);
            }
            if w >= 3 {
                assert(s[i + 2] >= 0x80);
            }
            assert(i + w <= q);
            lemma_skip_stop(s, i + w, q, h);
        }
    }
}

/// Line ends found over agreeing byte ranges.
proof fn lemma_nl_shift(s: Seq<u8>, r: Seq<u8>, i: int, j: int, k: int)
    requires
        0 <= i,
        0 <= j,
        0 <= k,
        i + k <= s.len(),
        j + k <= r.len(),
        s.subrange(i, i + k) == r.subrange(j, j + k),
        nl_from(s, i) == i + k,
        j + k == r.len() || r[j + k] == 0x0a,
    ensures
        nl_from(r, j) == j + k,
{
    lemma_nl_from(s, i);
    lemma_nl_from(r, j);
    let e = nl_from(r, j);
    if e < j + k {
        assert(r[e] == r.subrange(j, j + k)[e - j]);
        assert(s[i + (e - j)] == s.subrange(i, i + k)[e - j]);
    }
}

/// Two lines with the same content and the same end are both fences or
/// neither.
proof fn lemma_fence_eq(s: Seq<u8>, r: Seq<u8>, i: int, j: int, k: int)
    requires
        0 <= i,
        0 <= j,
        0 <= k,
        i + k <= s.len(),
        j + k <= r.len(),
        nl_from(s, i) == i + k,
        nl_from(r, j) == j + k,
        s.subrange(i, i + k) == r.subrange(j, j + k),
    ensures
        is_fence_line(s, i) == is_fence_line(r, j),
{
    lemma_skip_shift(s, r, i, j, k);
    lemma_skip_ws_bounds(s, i, i + k);
    lemma_skip_ws_bounds(r, j, j + k);
    let t = skip_ws(s, i, i + k);
    let t2 = skip_ws(r, j, j + k);
    if t + 3 <= i + k {
        assert(s.subrange(t, t + 3) =~= s.subrange(i, i + k).subrange(t - i, t - i + 3));
        assert(r.subrange(t2, t2 + 3) =~= r.subrange(j, j + k).subrange(t2 - j, t2 - j + 3));
    }
}

/// Two lines agreeing up to an ASCII byte at offset `q` that is neither white
/// space, a backtick nor a newline are both fences or neither, whatever
/// follows.
proof fn lemma_fence_eq_stop(s: Seq<u8>, r: Seq<u8>, i: int, j: int, q: int)
    requires
        0 <= i,
        0 <= j,
        0 <= q,
        i + q < s.len(),
        j + q < r.len(),
        s.subrange(i, i + q + 1) == r.subrange(j, j + q + 1),
        s[i + q] < 0x80,
        ws_width(s, i + q) == 0,
        s[i + q] != 0x60,
        s[i + q] != 0x0a,
        forall|m: int| i <= m < i + q ==> s[m] != 0x0a,
    ensures
        is_fence_line(s, i) == is_fence_line(r, j),
{
    assert(r[j + q] == r.subrange(j, j + q + 1)[q]);
    assert(s[i + q] == s.subrange(i, i + q + 1)[q]);
    lemma_nl_from(s, i);
    lemma_nl_from(r, j);
    let es = nl_from(s, i);
    let er = nl_from(r, j);
    assert(es > i + q) by {
        if es <= i + q {
            assert(s[es] == 0x0a);
        }
    }
    assert(er > j + q) by {
        if er <= j + q {
            assert(r[er] == 0x0a);
            assert(r[er] == r.subrange(j, j + q + 1)[er - j]);
            assert(s[i + (er - j)] == s.subrange(i, i + q + 1)[er - j]);
        }
    }
    assert(ws_width(r, j + q) == 0);
    lemma_skip_stop(s, i, i + q, es);
    lemma_skip_stop(r, j, j + q, er);
    assert(s.subrange(i, i + q) =~= s.subrange(i, i + q + 1).subrange(0, q));
    assert(r.subrange(j, j + q) =~= r.subrange(j, j + q + 1).subrange(0, q));
    lemma_skip_shift(s, r, i, j, q);
    lemma_skip_ws_bounds(s, i, i + q);
    let t = skip_ws(s, i, i + q);
    let t2 = skip_ws(r, j, j + q);
    assert(t - i == t2 - j);
    if t + 3 <= i + q {
        assert(s.subrange(t, t + 3) =~= s.subrange(i, i + q + 1).subrange(t - i, t - i + 3));
        assert(r.subrange(t2, t2 + 3) =~= r.subrange(j, j + q + 1).subrange(t2 - j, t2 - j + 3));
    } else {
        if occurs_at(s, fence(), t) {
            assert(s.subrange(t, t + 3)[i + q - t] == s[i + q]);
        }
        if occurs_at(r, fence(), t2) {
            assert(r.subrange(t2, t2 + 3)[j + q - t2] == r[j + q]);
        }
    }
}

// ---------------------------------------------------------------------------
// Locality of line starts and of the open-block state
// ---------------------------------------------------------------------------

proof fn lemma_line_start_prefix(s: Seq<u8>, r: Seq<u8>, p: int)
    requires
        0 <= p <= s.len(),
        p <= r.len(),
        s.subrange(0, p) == r.subrange(0, p),
    ensures
        line_start(s, p) == line_start(r, p),
    decreases p,
{
    if p > 0 {
        assert(s[p - 1] == s.subrange(0, p)[p - 1]);
        assert(r[p - 1] == r.subrange(0, p)[p - 1]);
        assert(s.subrange(0, p - 1) =~= s.subrange(0, p).subrange(0, p - 1));
        assert(r.subrange(0, p - 1) =~= r.subrange(0, p).subrange(0, p - 1));
        lemma_line_start_prefix(s, r, p - 1);
    }
}

/// A line start at or before `p` is at or before the start of `p`'s line.
proof fn lemma_line_start_ge(b: Seq<u8>, w: int, p: int)
    requires
        is_line_start(b, w),
        0 <= w <= p <= b.len(),
    ensures
        line_start(b, p) >= w,
{
    lemma_line_start(b, p);
    if line_start(b, p) < w {
        assert(b[w - 1] == 0x0a);
    }
}

/// The open-block state at a line start depends only on the text before it.
proof fn lemma_block_open_prefix(s: Seq<u8>, r: Seq<u8>, i: int)
    requires
        0 <= i <= s.len(),
        i <= r.len(),
        is_line_start(s, i),
        s.subrange(0, i) == r.subrange(0, i),
    ensures
        block_open_at(s, i) == block_open_at(r, i),
    decreases i,
{
    if i > 0 {
        assert(s[i - 1] == s.subrange(0, i)[i - 1]);
        assert(r[i - 1] == r.subrange(0, i)[i - 1]);
        assert(s.subrange(0, i - 1) =~= s.subrange(0, i).subrange(0, i - 1));
        assert(r.subrange(0, i - 1) =~= r.subrange(0, i).subrange(0, i - 1));
        lemma_line_start_prefix(s, r, i - 1);
        lemma_line_start(s, i - 1);
        let j = line_start(s, i - 1);
        // The line [j, i - 1) ends with the newline at i - 1.
        assert(nl_from(s, j) == i - 1) by {
            lemma_nl_from(s, j);
            if nl_from(s, j) < i - 1 {
                assert(s[nl_from(s, j)] == 0x0a);
            }
        }
        assert(r.subrange(0, i)[i - 1] == 0x0a);
        assert(s.subrange(j, i - 1) =~= s.subrange(0, i).subrange(j, i - 1));
        assert(r.subrange(j, i - 1) =~= r.subrange(0, i).subrange(j, i - 1));
        lemma_nl_shift(s, r, j, j, i - 1 - j);
        lemma_fence_eq(s, r, j, j, i - 1 - j);
        assert(s.subrange(0, j) =~= s.subrange(0, i).subrange(0, j));
        assert(r.subrange(0, j) =~= r.subrange(0, i).subrange(0, j));
        lemma_block_open_prefix(s, r, j);
    }
}

/// Line starts of two texts that agree from `y1` and `y2` on.
proof fn lemma_line_start_shift(s: Seq<u8>, r: Seq<u8>, y1: int, y2: int, p: int)
    requires
        0 <= y1 <= p <= s.len(),
        0 <= y2,
        y2 + (s.len() - y1) == r.len(),
        s.subrange(y1, s.len() as int) == r.subrange(y2, r.len() as int),
        is_line_start(s, y1),
        is_line_start(r, y2),
    ensures
        line_start(r, p - y1 + y2) == line_start(s, p) - y1 + y2,
    decreases p,
{
    if p > y1 {
        assert(s[p - 1] == s.subrange(y1, s.len() as int)[p - 1 - y1]);
        assert(r[p - 1 - y1 + y2] == r.subrange(y2, r.len() as int)[p - 1 - y1]);
        if s[p - 1] != 0x0a {
            lemma_line_start_shift(s, r, y1, y2, p - 1);
        }
    }
}

/// The open-block state at line starts of two texts that agree from `y1` and
/// `y2` on, when it agrees at `y1` and `y2`.
proof fn lemma_block_open_shift(s: Seq<u8>, r: Seq<u8>, y1: int, y2: int, w: int)
    requires
        0 <= y1 <= w <= s.len(),
        0 <= y2,
        y2 + (s.len() - y1) == r.len(),
        s.subrange(y1, s.len() as int) == r.subrange(y2, r.len() as int),
        is_line_start(s, y1),
        is_line_start(r, y2),
        is_line_start(s, w),
        block_open_at(s, y1) == block_open_at(r, y2),
    ensures
        block_open_at(r, w - y1 + y2) == block_open_at(s, w),
    decreases w,
{
    if w > y1 {
        lemma_line_start_shift(s, r, y1, y2, w - 1);
        lemma_line_start_ge(s, y1, w - 1);
        lemma_line_start(s, w - 1);
        let j = line_start(s, w - 1);
        let k = w - 1 - j;
        assert(s[w - 1] == 0x0a);
        assert(nl_from(s, j) == w - 1) by {
            lemma_nl_from(s, j);
            if nl_from(s, j) < w - 1 {
                assert(s[nl_from(s, j)] == 0x0a);
            }
        }
        let j2 = j - y1 + y2;
        assert(s.subrange(j, j + k) =~= s.subrange(y1, s.len() as int).subrange(j - y1, j - y1 + k));
        assert(r.subrange(j2, j2 + k) =~= r.subrange(y2, r.len() as int).subrange(j - y1, j - y1 + k));
        assert(r[j2 + k] == r.subrange(y2, r.len() as int)[w - 1 - y1]);
        assert(s[w - 1] == s.subrange(y1, s.len() as int)[w - 1 - y1]);
        lemma_nl_shift(s, r, j, j2, k);
        lemma_fence_eq(s, r, j, j2, k);
        assert(is_line_start(r, w - y1 + y2)) by {
            assert(r[w - y1 + y2 - 1] == r.subrange(y2, r.len() as int)[w - 1 - y1]);
        }
        lemma_block_open_shift(s, r, y1, y2, j);
    }
}

/// In-block status of positions of two texts that agree from line starts
/// `y1` and `y2` on, with the same open-block state there.
proof fn lemma_in_block_shift(s: Seq<u8>, r: Seq<u8>, y1: int, y2: int, p: int)
    requires
        0 <= y1 <= p < s.len(),
        0 <= y2,
        y2 + (s.len() - y1) == r.len(),
        s.subrange(y1, s.len() as int) == r.subrange(y2, r.len() as int),
        is_line_start(s, y1),
        is_line_start(r, y2),
        block_open_at(s, y1) == block_open_at(r, y2),
    ensures
        in_block(r, p - y1 + y2) == in_block(s, p),
{
    lemma_line_start_shift(s, r, y1, y2, p);
    lemma_line_start_ge(s, y1, p);
    lemma_line_start(s, p);
    let w = line_start(s, p);
    let w2 = w - y1 + y2;
    lemma_block_open_shift(s, r, y1, y2, w);
    lemma_nl_from(s, w);
    let e = nl_from(s, w);
    let k = e - w;
    assert(s.subrange(w, w + k) =~= s.subrange(y1, s.len() as int).subrange(w - y1, w - y1 + k));
    assert(r.subrange(w2, w2 + k) =~= r.subrange(y2, r.len() as int).subrange(w - y1, w - y1 + k));
    if e < s.len() {
        assert(s[e] == s.subrange(y1, s.len() as int)[e - y1]);
        assert(r[w2 + k] == r.subrange(y2, r.len() as int)[e - y1]);
    }
    lemma_nl_shift(s, r, w, w2, k);
    lemma_fence_eq(s, r, w, w2, k);
}

/// With no fence line among the line starts in `[u, v)`, the open-block state
/// is the same at `v` as at `u`.
proof fn lemma_no_fence_span(b: Seq<u8>, u: int, v: int)
    requires
        0 <= u <= v <= b.len(),
        is_line_start(b, u),
        is_line_start(b, v),
        forall|j: int| u <= j < v && is_line_start(b, j) ==> !#[trigger] is_fence_line(b, j),
    ensures
        block_open_at(b, v) == block_open_at(b, u),
    decreases v,
{
    if v > u {
        lemma_line_start(b, v - 1);
        lemma_line_start_ge(b, u, v - 1);
        let j = line_start(b, v - 1);
        assert(!is_fence_line(b, j));
        lemma_no_fence_span(b, u, j);
    }
}


// ---------------------------------------------------------------------------
// Small facts
// ---------------------------------------------------------------------------

/// A line starting with `<` is not a code fence.
proof fn lemma_not_fence_at_lt(b: Seq<u8>, i: int)
    requires
        0 <= i < b.len(),
        b[i] == 0x3c,
    ensures
        !is_fence_line(b, i),
{
    lemma_nl_from(b, i);
    let e = nl_from(b, i);
    assert(e > i);
    assert(ws_width(b, i) == 0);
    assert(skip_ws(b, i, e) == i);
    if occurs_at(b, fence(), i) {
        assert(b.subrange(i, i + 3)[0] == b[i]);
    }
}

/// A byte sequence without newlines occurs in `with_newline(a)` only inside
/// `a`.
proof fn lemma_occurs_with_newline(a: Seq<u8>, n: Seq<u8>, k: int)
    requires
        n.len() > 0,
        occurs_at(with_newline(a), n, k),
        forall|m: int| 0 <= m < n.len() ==> n[m] != 0x0a,
    ensures
        occurs_at(a, n, k),
{
    let a2 = with_newline(a);
    if a2 != a {
        assert(a2 =~= a.push(0x0a));
        if k + n.len() > a.len() {
            let m = a.len() - k;
            assert(a2.subrange(k, k + n.len())[m] == a2[a.len() as int]);
            assert(n[m] == 0x0a);
        }
        assert(a.subrange(k, k + n.len()) =~= a2.subrange(k, k + n.len()));
    }
}

// ---------------------------------------------------------------------------
// The lens
// ---------------------------------------------------------------------------

/// Content `a` can be set at point `p` of a text and read back: it holds no
/// opening or closing tag, its code fences leave no block open at its end,
/// and, when the opening tag is not followed by a newline (so that the
/// content continues the tag's line), it does not start with a newline and
/// its first line is no fence.
pub open spec fn injectable(p: (int, int, int, int), a: Seq<u8>) -> bool {
    let a2 = with_newline(a);
    &&& !contains(a, open_tag())
    &&& !contains(a, close_tag())
    &&& !block_open_at(a2, a2.len() as int)
    &&& (p.2 == p.0 + 12 && a.len() > 0 ==> a[0] != 0x0a && !is_fence_line(a2, 0))
}

/// The point found in a text.
pub open spec fn found(b: Seq<u8>) -> (int, int, int, int) {
    spec_find(b)->Ok_0
}

/// The text after setting `a` at the point found in `b`.
pub open spec fn set_at_found(b: Seq<u8>, a: Seq<u8>) -> Seq<u8> {
    spec_inject(b, found(b).2, found(b).3, a)
}

/// What a successful `spec_find` says about the text.
proof fn lemma_found_facts(b: Seq<u8>)
    requires
        spec_find(b) is Ok,
    ensures
        ({
            let (t, te, cs, ce) = found(b);
            let u = line_start(b, t);
            let v = line_start(b, ce);
            &&& live_open(b, t)
            &&& forall|i: int| i != t ==> !#[trigger] live_open(b, i)
            &&& t + 12 <= b.len()
            &&& b[t] == 0x3c
            &&& forall|k: int| t < k < t + 12 ==> b[k] != 0x3c && b[k] != 0x0a
            &&& cs == content_start_after(b, t)
            &&& (cs == t + 12 || (cs == t + 13 && b[t + 12] == 0x0a))
            &&& cs <= ce
            &&& ce + 13 <= b.len()
            &&& b[ce] == 0x3c
            &&& occurs_at(b, close_tag(), ce)
            &&& !in_block(b, ce)
            &&& te == tag_end_after(b, ce)
            &&& is_line_start(b, u) && 0 <= u <= t
            &&& forall|k: int| u <= k < t ==> b[k] != 0x0a
            &&& !is_fence_line(b, u) && !block_open_at(b, u)
            &&& is_line_start(b, v) && 0 <= v <= ce
            &&& forall|k: int| v <= k < ce ==> b[k] != 0x0a
            &&& !is_fence_line(b, v) && !block_open_at(b, v)
        }),
{
    let (t, te, cs, ce) = found(b);
    let open = open_tag();
    let close = close_tag();
    assert(exists|i: int| #[trigger] live_open(b, i));
    assert(!exists|i: int, j: int| i < j && #[trigger] live_open(b, i) && #[trigger] live_open(b, j));
    assert(t == choose|i: int| #[trigger] live_open(b, i));
    assert(live_open(b, t));
    assert forall|i: int| i != t implies !#[trigger] live_open(b, i) by {
        if live_open(b, i) {
            if i < t {
                assert(live_open(b, i) && live_open(b, t));
            } else {
                assert(live_open(b, t) && live_open(b, i));
            }
        }
    }
    lemma_first_live_close(b, cs);
    assert(open.len() == 12);
    assert(close.len() == 13);
    assert(b[t] == 0x3c) by {
        assert(b.subrange(t, t + 12)[0] == b[t]);
    }
    assert(b[ce] == 0x3c) by {
        assert(b.subrange(ce, ce + 13)[0] == b[ce]);
    }
    assert forall|k: int| t < k < t + 12 implies b[k] != 0x3c && b[k] != 0x0a by {
        assert(b.subrange(t, t + 12)[k - t] == b[k]);
    }
    lemma_line_start(b, t);
    let u = line_start(b, t);
    lemma_nl_from(b, u);
    assert(nl_from(b, u) > t) by {
        if nl_from(b, u) <= t {
            assert(b[nl_from(b, u)] == 0x0a);
        }
    }
    lemma_line_start(b, ce);
    let v = line_start(b, ce);
    lemma_nl_from(b, v);
    assert(nl_from(b, v) > ce) by {
        if nl_from(b, v) <= ce {
            assert(b[nl_from(b, v)] == 0x0a);
        }
    }
}

/// Where the bytes of the text after setting `a` come from.
proof fn lemma_set_index(b: Seq<u8>, a: Seq<u8>)
    requires
        spec_find(b) is Ok,
    ensures
        ({
            let (t, te, cs, ce) = found(b);
            let a2 = with_newline(a);
            let b2 = set_at_found(b, a);
            let ce2 = cs + a2.len();
            let d = ce2 - ce;
            &&& a2.len() == 0 || a2.last() == 0x0a
            &&& b2.len() == b.len() + d
            &&& forall|k: int| 0 <= k < cs ==> #[trigger] b2[k] == b[k]
            &&& forall|k: int| cs <= k < ce2 ==> #[trigger] b2[k] == a2[k - cs]
            &&& forall|k: int| ce2 <= k < b2.len() ==> #[trigger] b2[k] == b[k - d]
            &&& forall|k: int| 0 <= k <= cs ==> #[trigger] b2.subrange(0, k) == b.subrange(0, k)
            &&& b2.subrange(ce2, b2.len() as int) == b.subrange(ce, b.len() as int)
            &&& a2.subrange(0, a2.len() as int) == b2.subrange(cs, ce2)
        }),
{
    lemma_found_facts(b);
    let (t, te, cs, ce) = found(b);
    let a2 = with_newline(a);
    let b2 = set_at_found(b, a);
    let ce2 = cs + a2.len();
    assert forall|k: int| 0 <= k <= cs implies #[trigger] b2.subrange(0, k) == b.subrange(0, k) by {
        assert(b2.subrange(0, k) =~= b.subrange(0, k));
    }
    assert(b2.subrange(ce2, b2.len() as int) =~= b.subrange(ce, b.len() as int));
    assert(a2.subrange(0, a2.len() as int) =~= b2.subrange(cs, ce2));
}

/// The tag line keeps its start, stays a non-fence line, and has no open
/// block, after setting `a`; the opening tag stays live.
proof fn lemma_set_tag_line(b: Seq<u8>, a: Seq<u8>)
    requires
        spec_find(b) is Ok,
    ensures
        ({
            let (t, te, cs, ce) = found(b);
            let b2 = set_at_found(b, a);
            let u = line_start(b, t);
            &&& line_start(b2, t) == u
            &&& is_line_start(b2, u)
            &&& !is_fence_line(b2, u)
            &&& !block_open_at(b2, u)
            &&& live_open(b2, t)
        }),
{
    lemma_found_facts(b);
    lemma_set_index(b, a);
    let (t, te, cs, ce) = found(b);
    let b2 = set_at_found(b, a);
    let u = line_start(b, t);
    lemma_line_start_prefix(b, b2, t);
    lemma_block_open_prefix(b, b2, u);
    assert(b2.subrange(u, t + 1) =~= b.subrange(u, t + 1));
    assert(ws_width(b, t) == 0);
    lemma_fence_eq_stop(b, b2, u, u, t - u);
    assert(is_line_start(b2, u)) by {
        if u > 0 {
            assert(b2[u - 1] == b[u - 1]);
        }
    }
    assert(b2.subrange(t, t + 12) =~= b.subrange(t, t + 12));
    assert(occurs_at(b2, open_tag(), t));
    lemma_nl_from(b2, u);
    assert(nl_from(b2, u) > t) by {
        if nl_from(b2, u) <= t {
            assert(b2[nl_from(b2, u)] == 0x0a);
        }
    }
}

/// After setting non-empty content, no code block is open where the closing
/// tag's line starts: the content's fences leave none open.
#[verifier::spinoff_prover]
#[verifier::rlimit(40)]
proof fn lemma_set_block_at_close(b: Seq<u8>, a: Seq<u8>)
    requires
        spec_find(b) is Ok,
        injectable(found(b), a),
        with_newline(a).len() > 0,
    ensures
        !block_open_at(set_at_found(b, a), found(b).2 + with_newline(a).len()),
{
    lemma_found_facts(b);
    lemma_set_index(b, a);
    lemma_set_tag_line(b, a);
    let (t, te, cs, ce) = found(b);
    let a2 = with_newline(a);
    let b2 = set_at_found(b, a);
    let ce2 = cs + a2.len();
    let u = line_start(b, t);
    let s = b2.subrange(cs, b2.len() as int);
    let n = a2.len() as int;
    assert(s.subrange(0, n) =~= a2.subrange(0, n));
    assert(s[n - 1] == a2[n - 1]);
    assert(is_line_start(s, n));
    assert(is_line_start(a2, n));
    assert(s.subrange(0, s.len() as int) =~= b2.subrange(cs, b2.len() as int));
    assert(forall|k: int| u <= k < t ==> b2[k] != 0x0a);
    assert(forall|k: int| t <= k < t + 12 ==> b2[k] == b[k]);
    if cs == t + 13 {
        assert(b2[cs - 1] == b[t + 12]);
        lemma_line_start_within(b2, u, cs - 1);
        lemma_block_open_shift(s, b2, 0, cs, n);
    } else {
        lemma_nl_from(a2, 0);
        let k1 = nl_from(a2, 0);
        assert(k1 < n) by {
            if k1 == n {
                assert(a2[n - 1] == 0x0a);
            }
        }
        assert(s[k1] == a2[k1]);
        assert(b2[cs + k1] == a2[k1]);
        assert(forall|k: int| 0 <= k < k1 ==> s[k] == a2[k]);
        lemma_line_start_within(s, 0, k1);
        lemma_nl_from(s, 0);
        assert(nl_from(s, 0) == k1) by {
            if nl_from(s, 0) < k1 {
                assert(s[nl_from(s, 0)] == 0x0a);
            }
        }
        assert(s.subrange(0, k1) =~= a2.subrange(0, k1));
        lemma_fence_eq(s, a2, 0, 0, k1);
        assert forall|k: int| u <= k < cs + k1 implies b2[k] != 0x0a by {
            if k >= cs {
                assert(b2[k] == a2[k - cs]);
            }
        }
        lemma_line_start_within(b2, u, cs + k1);
        assert(s.subrange(k1 + 1, s.len() as int) =~= b2.subrange(cs + k1 + 1, b2.len() as int));
        assert(a.len() > 0);
        assert(!is_fence_line(a2, 0));
        assert(line_start(s, k1) == 0);
        assert(block_open_at(s, k1 + 1) == (block_open_at(s, 0) != is_fence_line(s, 0)));
        assert(!block_open_at(s, k1 + 1));
        assert(line_start(b2, cs + k1) == u);
        assert(block_open_at(b2, cs + k1 + 1) == (block_open_at(b2, u) != is_fence_line(b2, u)));
        lemma_block_open_shift(s, b2, k1 + 1, cs + k1 + 1, n);
    }
    lemma_block_open_prefix(s, a2, n);
}

/// The line holding the closing tag after setting `a` starts at a non-fence
/// line with no open block.
proof fn lemma_set_close_line(b: Seq<u8>, a: Seq<u8>) -> (v2: int)
    requires
        spec_find(b) is Ok,
        injectable(found(b), a),
    ensures
        ({
            let (t, te, cs, ce) = found(b);
            let b2 = set_at_found(b, a);
            let ce2 = cs + with_newline(a).len();
            &&& 0 <= v2 <= ce2 < b2.len()
            &&& b2[ce2] == 0x3c
            &&& is_line_start(b2, v2)
            &&& !is_fence_line(b2, v2)
            &&& !block_open_at(b2, v2)
            &&& forall|k: int| v2 <= k < ce2 ==> b2[k] != 0x0a
            &&& line_start(b2, ce2) == v2
            &&& !in_block(b2, ce2)
        }),
{
    lemma_found_facts(b);
    lemma_set_index(b, a);
    lemma_set_tag_line(b, a);
    let (t, te, cs, ce) = found(b);
    let a2 = with_newline(a);
    let b2 = set_at_found(b, a);
    let ce2 = cs + a2.len();
    let u = line_start(b, t);
    let case_a = a2.len() > 0 || cs == t + 13;
    assert(b2[ce2] == b[ce]);
    assert(forall|k: int| u <= k < t ==> b2[k] != 0x0a);
    let v2 = if case_a {
        ce2
    } else {
        u
    };
    if case_a {
        assert(b2[ce2 - 1] == 0x0a) by {
            if a2.len() > 0 {
                assert(b2[ce2 - 1] == a2[a2.len() - 1]);
            } else {
                assert(b2[ce2 - 1] == b[t + 12]);
            }
        }
        lemma_not_fence_at_lt(b2, ce2);
        if a2.len() > 0 {
            lemma_set_block_at_close(b, a);
        } else {
            assert forall|j: int| u <= j < ce2 && is_line_start(b2, j) implies !#[trigger] is_fence_line(
                b2,
                j,
            ) by {
                if j > u {
                    assert(b2[j - 1] == 0x0a);
                    assert(b2[j - 1] == b[j - 1]);
                }
            }
            lemma_no_fence_span(b2, u, ce2);
        }
    } else {
        assert(ce2 == t + 12);
        assert(forall|k: int| t <= k < t + 12 ==> b2[k] == b[k]);
    }
    lemma_line_start_within(b2, v2, ce2);
    v2
}

/// From the closing tag on, the text after setting `a` has the code blocks of
/// the original text, shifted.
#[verifier::spinoff_prover]
#[verifier::rlimit(40)]
proof fn lemma_set_suffix_blocks(b: Seq<u8>, a: Seq<u8>, q: int)
    requires
        spec_find(b) is Ok,
        injectable(found(b), a),
        found(b).2 + with_newline(a).len() <= q < set_at_found(b, a).len(),
    ensures
        in_block(set_at_found(b, a), q) == in_block(
            b,
            q - (found(b).2 + with_newline(a).len() - found(b).3),
        ),
{
    lemma_found_facts(b);
    lemma_set_index(b, a);
    let v2 = lemma_set_close_line(b, a);
    let (t, te, cs, ce) = found(b);
    let a2 = with_newline(a);
    let b2 = set_at_found(b, a);
    let ce2 = cs + a2.len();
    let d = ce2 - ce;
    let v = line_start(b, ce);
    lemma_nl_from(b2, ce2);
    lemma_nl_from(b, ce);
    let n2 = nl_from(b2, ce2);
    assert(b2.subrange(ce2, n2) =~= b.subrange(ce, ce + (n2 - ce2)));
    if n2 < b2.len() {
        assert(b2[n2] == b[n2 - d]);
    }
    lemma_nl_shift(b2, b, ce2, ce, n2 - ce2);
    let n = nl_from(b, ce);
    assert(n == n2 - d);
    if q <= n2 {
        lemma_line_start_within(b2, v2, q);
        assert(forall|k: int| ce <= k < q - d ==> b[k] == b2[k + d]);
        lemma_line_start_within(b, v, q - d);
    } else {
        let y2 = n2 + 1;
        let y = n + 1;
        lemma_line_start_within(b2, v2, n2);
        lemma_line_start_within(b, v, n);
        assert(block_open_at(b2, y2) == false);
        assert(block_open_at(b, y) == false);
        assert(b.subrange(y, b.len() as int) =~= b2.subrange(y2, b2.len() as int));
        lemma_in_block_shift(b, b2, y, y2, q - d);
    }
}

/// After setting `a`, no opening tag before the found one is live.
#[verifier::spinoff_prover]
#[verifier::rlimit(40)]
proof fn lemma_set_no_open_before(b: Seq<u8>, a: Seq<u8>, i: int)
    requires
        spec_find(b) is Ok,
        i < found(b).0,
    ensures
        !live_open(set_at_found(b, a), i),
{
    lemma_found_facts(b);
    lemma_set_index(b, a);
    let (t, te, cs, ce) = found(b);
    let b2 = set_at_found(b, a);
    let open = open_tag();
    let u = line_start(b, t);
    if live_open(b2, i) {
        assert(b2[i] == 0x3c) by {
            assert(b2.subrange(i, i + 12)[0] == b2[i]);
        }
        assert(b2.subrange(t, t + 12) =~= b.subrange(t, t + 12));
        lemma_open_tags_apart(b2, i, t);
        assert(b.subrange(i, i + 12) =~= b2.subrange(i, i + 12));
        assert(occurs_at(b, open, i));
        assert(!live_open(b, i));
        assert(in_block(b, i));
        lemma_line_start(b, i);
        let w = line_start(b, i);
        lemma_line_start_ge(b, w, t);
        lemma_line_start_prefix(b, b2, i);
        if w == u {
            assert(!in_block(b, i));
        } else {
            lemma_nl_from(b, w);
            let ew = nl_from(b, w);
            assert(ew < u) by {
                assert(b[u - 1] == 0x0a);
            }
            assert(b2.subrange(w, ew) =~= b.subrange(w, ew));
            lemma_nl_shift(b, b2, w, w, ew - w);
            lemma_fence_eq(b, b2, w, w, ew - w);
            lemma_block_open_prefix(b, b2, w);
            assert(in_block(b2, i));
        }
    }
}

/// After setting `a`, no opening tag starts inside the content or on the
/// opening tag's own bytes.
#[verifier::spinoff_prover]
#[verifier::rlimit(40)]
proof fn lemma_set_no_open_inside(b: Seq<u8>, a: Seq<u8>, i: int)
    requires
        spec_find(b) is Ok,
        injectable(found(b), a),
        found(b).0 < i < found(b).2 + with_newline(a).len(),
    ensures
        !occurs_at(set_at_found(b, a), open_tag(), i),
{
    lemma_found_facts(b);
    lemma_set_index(b, a);
    let (t, te, cs, ce) = found(b);
    let a2 = with_newline(a);
    let b2 = set_at_found(b, a);
    let ce2 = cs + a2.len();
    let open = open_tag();
    if occurs_at(b2, open, i) {
        assert(b2[i] == 0x3c) by {
            assert(b2.subrange(i, i + 12)[0] == b2[i]);
        }
        if i < cs {
            assert(b2[i] == b[i]);
        } else if i + 12 <= ce2 {
            assert(a2.subrange(i - cs, i - cs + 12) =~= b2.subrange(i, i + 12));
            assert(forall|m: int| 0 <= m < open.len() ==> open[m] != 0x0a);
            lemma_occurs_with_newline(a, open, i - cs);
            assert(contains(a, open));
        } else {
            assert(b2[ce2] == b[ce]);
            assert(b2.subrange(i, i + 12)[ce2 - i] == b2[ce2]);
        }
    }
}

/// After setting `a`, no opening tag after the content is live.
#[verifier::spinoff_prover]
#[verifier::rlimit(40)]
proof fn lemma_set_no_open_after(b: Seq<u8>, a: Seq<u8>, i: int)
    requires
        spec_find(b) is Ok,
        injectable(found(b), a),
        found(b).2 + with_newline(a).len() <= i,
    ensures
        !live_open(set_at_found(b, a), i),
{
    lemma_found_facts(b);
    lemma_set_index(b, a);
    let (t, te, cs, ce) = found(b);
    let a2 = with_newline(a);
    let b2 = set_at_found(b, a);
    let ce2 = cs + a2.len();
    let d = ce2 - ce;
    let open = open_tag();
    if live_open(b2, i) {
        assert(b.subrange(i - d, i - d + 12) =~= b2.subrange(i, i + 12));
        assert(occurs_at(b, open, i - d));
        lemma_set_suffix_blocks(b, a, i);
        assert(i - d != t);
        assert(!live_open(b, i - d));
    }
}

/// After setting `a`, the opening tag is the only live one.
proof fn lemma_set_unique_open(b: Seq<u8>, a: Seq<u8>, i: int)
    requires
        spec_find(b) is Ok,
        injectable(found(b), a),
        i != found(b).0,
    ensures
        !live_open(set_at_found(b, a), i),
{
    let (t, te, cs, ce) = found(b);
    if i < t {
        lemma_set_no_open_before(b, a, i);
    } else if i < cs + with_newline(a).len() {
        lemma_set_no_open_inside(b, a, i);
    } else {
        lemma_set_no_open_after(b, a, i);
    }
}

/// After setting `a`, the found opening tag is the one live opening tag.
proof fn lemma_set_open_choice(b: Seq<u8>, a: Seq<u8>)
    requires
        spec_find(b) is Ok,
        injectable(found(b), a),
    ensures
        ({
            let b2 = set_at_found(b, a);
            let t = found(b).0;
            &&& exists|i: int| #[trigger] live_open(b2, i)
            &&& !exists|i: int, j: int| i < j && #[trigger] live_open(b2, i) && #[trigger] live_open(b2, j)
            &&& (choose|i: int| #[trigger] live_open(b2, i)) == t
        }),
{
    lemma_set_tag_line(b, a);
    let t = found(b).0;
    let b2 = set_at_found(b, a);
    assert forall|i: int| i != t implies !#[trigger] live_open(b2, i) by {
        lemma_set_unique_open(b, a, i);
    }
    assert(live_open(b2, t));
}

/// After setting `a`, the content starts where it started before.
proof fn lemma_set_content_start(b: Seq<u8>, a: Seq<u8>)
    requires
        spec_find(b) is Ok,
        injectable(found(b), a),
    ensures
        content_start_after(set_at_found(b, a), found(b).0) == found(b).2,
{
    lemma_found_facts(b);
    lemma_set_index(b, a);
    let (t, te, cs, ce) = found(b);
    let a2 = with_newline(a);
    let b2 = set_at_found(b, a);
    let ce2 = cs + a2.len();
    if cs == t + 12 && t + 12 < b2.len() {
        if a2.len() > 0 {
            assert(b2[t + 12] == a2[0]);
            assert(a2[0] == a[0]);
        } else {
            assert(b2[t + 12] == b2[ce2]);
            assert(b2[ce2] == b[ce]);
        }
    } else if cs == t + 13 {
        assert(b2[t + 12] == b[t + 12]);
    }
}

/// The closing tag found in a text, in brief.
proof fn lemma_found_close(b: Seq<u8>)
    requires
        spec_find(b) is Ok,
    ensures
        found(b).2 <= found(b).3,
        found(b).3 + 13 <= b.len(),
        b[found(b).3] == 0x3c,
{
    lemma_found_facts(b);
}

/// A closing tag inside `with_newline(a)` lies inside `a`.
proof fn lemma_close_in_content(a: Seq<u8>, k: int)
    requires
        0 <= k,
        k + 13 <= with_newline(a).len(),
        occurs_at(with_newline(a), close_tag(), k),
    ensures
        contains(a, close_tag()),
{
    let close = close_tag();
    assert(forall|m: int| 0 <= m < close.len() ==> close[m] != 0x0a);
    lemma_occurs_with_newline(a, close, k);
}

/// After setting `a`, no closing tag starts inside the new content.
#[verifier::spinoff_prover]
#[verifier::rlimit(40)]
proof fn lemma_set_no_close_inside(b: Seq<u8>, a: Seq<u8>, i: int)
    requires
        spec_find(b) is Ok,
        injectable(found(b), a),
        found(b).2 <= i < found(b).2 + with_newline(a).len(),
    ensures
        !occurs_at(set_at_found(b, a), close_tag(), i),
{
    lemma_found_close(b);
    let (t, te, cs, ce) = found(b);
    let a2 = with_newline(a);
    let b2 = set_at_found(b, a);
    let ce2 = cs + a2.len();
    let close = close_tag();
    assert(b2 == b.subrange(0, cs) + a2 + b.subrange(ce, b.len() as int));
    if occurs_at(b2, close, i) {
        if i + 13 <= ce2 {
            assert(a2.subrange(i - cs, i - cs + 13) =~= b2.subrange(i, i + 13));
            lemma_close_in_content(a, i - cs);
        } else {
            assert(b2[ce2] == b[ce]);
            assert(b2.subrange(i, i + 13)[ce2 - i] == b2[ce2]);
        }
    }
}

/// After setting `a`, the first closing tag after the content start ends the
/// new content, lies outside code blocks, and the region ends as far after it
/// as before.
#[verifier::spinoff_prover]
#[verifier::rlimit(40)]
proof fn lemma_set_close_first(b: Seq<u8>, a: Seq<u8>)
    requires
        spec_find(b) is Ok,
        injectable(found(b), a),
    ensures
        ({
            let (t, te, cs, ce) = found(b);
            let b2 = set_at_found(b, a);
            let ce2 = cs + with_newline(a).len();
            &&& first_live_close(b2, cs) == Some(ce2)
            &&& !in_block(b2, ce2)
            &&& tag_end_after(b2, ce2) == te + (ce2 - ce)
        }),
{
    lemma_found_facts(b);
    lemma_set_index(b, a);
    let v2 = lemma_set_close_line(b, a);
    let (t, te, cs, ce) = found(b);
    let a2 = with_newline(a);
    let b2 = set_at_found(b, a);
    let ce2 = cs + a2.len();
    let close = close_tag();
    assert(b2.subrange(ce2, ce2 + 13) =~= b.subrange(ce, ce + 13));
    assert forall|i: int| cs <= i < ce2 implies !#[trigger] live_close(b2, i) by {
        lemma_set_no_close_inside(b, a, i);
    }
    assert(live_close(b2, ce2));
    lemma_first_live_close_is(b2, cs, ce2);
    if ce2 + 13 < b2.len() {
        assert(b2[ce2 + 13] == b[ce + 13]);
    }
}

/// The point found in the text after injecting `a` at the point found in `b`:
/// the opening tag stays, and the content region is exactly the injected
/// content.
pub proof fn lemma_find_after_inject(b: Seq<u8>, a: Seq<u8>)
    requires
        spec_find(b) is Ok,
        injectable(spec_find(b)->Ok_0, a),
    ensures
        ({
            let p = spec_find(b)->Ok_0;
            let a2 = with_newline(a);
            let b2 = spec_inject(b, p.2, p.3, a);
            spec_find(b2) == Ok::<(int, int, int, int), crate::inject::InjectionError>(
                (p.0, p.1 - p.3 + p.2 + a2.len(), p.2, p.2 + a2.len()),
            )
        }),
{
    lemma_set_open_choice(b, a);
    lemma_set_content_start(b, a);
    lemma_set_close_first(b, a);
}

/// Lens law `get(set(s, a)) = a`: content written at the point of a text is
/// what is then found there (for content without tags or fence lines, that
/// ends with a newline or is empty).
pub proof fn law_get_set(b: Seq<u8>, a: Seq<u8>)
    requires
        spec_find(b) is Ok,
        injectable(spec_find(b)->Ok_0, a),
        a.len() == 0 || a.last() == 0x0a,
    ensures
        ({
            let p = spec_find(b)->Ok_0;
            let b2 = spec_inject(b, p.2, p.3, a);
            &&& spec_find(b2) is Ok
            &&& spec_get(b2, spec_find(b2)->Ok_0) == a
        }),
{
    let p = spec_find(b)->Ok_0;
    lemma_find_after_inject(b, a);
    let b2 = spec_inject(b, p.2, p.3, a);
    assert(with_newline(a) == a);
    assert(b2.subrange(p.2, p.2 + a.len()) =~= a);
}

/// Lens law `set(s, get(s)) = s`: writing back the content found leaves the
/// text unchanged (when that content is empty or ends with a newline).
pub proof fn law_set_get(b: Seq<u8>)
    requires
        spec_find(b) is Ok,
        ({
            let c = spec_get(b, spec_find(b)->Ok_0);
            c.len() == 0 || c.last() == 0x0a
        }),
    ensures
        ({
            let p = spec_find(b)->Ok_0;
            spec_inject(b, p.2, p.3, spec_get(b, p)) == b
        }),
{
    let p = spec_find(b)->Ok_0;
    lemma_first_live_close(b, p.2);
    let c = spec_get(b, p);
    assert(with_newline(c) == c);
    assert(b.subrange(0, p.2) + c + b.subrange(p.3, b.len() as int) =~= b);
}

/// Lens law `set(set(s, a), c) = set(s, c)`: the last content set wins.
pub proof fn law_set_set(b: Seq<u8>, a: Seq<u8>, c: Seq<u8>)
    requires
        spec_find(b) is Ok,
        injectable(spec_find(b)->Ok_0, a),
    ensures
        ({
            let p = spec_find(b)->Ok_0;
            let b2 = spec_inject(b, p.2, p.3, a);
            &&& spec_find(b2) is Ok
            &&& spec_inject(b2, spec_find(b2)->Ok_0.2, spec_find(b2)->Ok_0.3, c) == spec_inject(
                b,
                p.2,
                p.3,
                c,
            )
        }),
{
    let p = spec_find(b)->Ok_0;
    lemma_find_after_inject(b, a);
    lemma_first_live_close(b, p.2);
    let a2 = with_newline(a);
    let b2 = spec_inject(b, p.2, p.3, a);
    let ce2 = p.2 + a2.len();
    assert(b2.subrange(0, p.2) =~= b.subrange(0, p.2));
    assert(b2.subrange(ce2, b2.len() as int) =~= b.subrange(p.3, b.len() as int));
}

/// Injection is idempotent: injecting the same content again at the point
/// found after the first injection changes nothing (for content without
/// tags or fence lines).
pub proof fn law_inject_idempotent(b: Seq<u8>, a: Seq<u8>)
    requires
        spec_find(b) is Ok,
        injectable(spec_find(b)->Ok_0, a),
    ensures
        ({
            let p = spec_find(b)->Ok_0;
            let b2 = spec_inject(b, p.2, p.3, a);
            &&& spec_find(b2) is Ok
            &&& spec_inject(b2, spec_find(b2)->Ok_0.2, spec_find(b2)->Ok_0.3, a) == b2
        }),
{
    law_set_set(b, a, a);
}

/// Content outside the tagged region is never modified: the text up to the
/// content start (the opening tag included) and from the content end (the
/// closing tag included) stays as it was, whatever is injected.
pub proof fn law_outside_tags_unchanged(b: Seq<u8>, a: Seq<u8>)
    requires
        spec_find(b) is Ok,
    ensures
        ({
            let p = spec_find(b)->Ok_0;
            let r = spec_inject(b, p.2, p.3, a);
            &&& r.subrange(0, p.2) == b.subrange(0, p.2)
            &&& r.subrange(r.len() - (b.len() - p.3), r.len() as int) == b.subrange(
                p.3,
                b.len() as int,
            )
            &&& r.subrange(p.2, r.len() - (b.len() - p.3)) == with_newline(a)
        }),
{
    lemma_found_facts(b);
    let p = spec_find(b)->Ok_0;
    let r = spec_inject(b, p.2, p.3, a);
    assert(r.subrange(0, p.2) =~= b.subrange(0, p.2));
    assert(r.subrange(r.len() - (b.len() - p.3), r.len() as int) =~= b.subrange(
        p.3,
        b.len() as int,
    ));
    assert(r.subrange(p.2, r.len() - (b.len() - p.3)) =~= with_newline(a));
}

} // verus!
