//! AGENTS.md injection: a lens over the text between `<braid-seed>` tags.
//!
//! `find_injection_point` is the `get` side (it locates the tagged region,
//! ignoring tags inside fenced markdown code blocks) and `inject` is the `set`
//! side (it replaces the region and keeps every byte outside it).  The lens
//! laws are proved at the end of this file.
use vstd::prelude::*;
use vstd::utf8::*;
use crate::text::{
    boundary, bytes_to_string, find_from, lemma_after_ascii, lemma_ascii_valid,
    lemma_nl_from, lemma_valid_concat3, lemma_valid_sub, matches_at, nl_from,
    nl_from_exec, occurs_at, push_all, push_range, skip_ws, skip_ws_exec, utf8,
};

verus! {

broadcast use vstd::utf8::group_utf8_lib;

// ---------------------------------------------------------------------------
// Types
// ---------------------------------------------------------------------------

/// An injection point found in the text between `<braid-seed>` tags.
/// All four fields are byte offsets.
#[derive(Clone, Copy, Debug, PartialEq, Eq, Structural)]
pub struct InjectionPoint {
    /// Byte offset of opening tag start (including the tag itself).
    pub tag_start: usize,
    /// Byte offset after closing tag end (including newline if present).
    pub tag_end: usize,
    /// Byte offset of content start (after opening tag + newline).
    pub content_start: usize,
    /// Byte offset of content end (before closing tag).
    pub content_end: usize,
}

/// Errors that can occur when finding injection points.
#[derive(Clone, Copy, Debug, PartialEq, Eq, Structural)]
pub enum InjectionError {
    /// No `<braid-seed>` opening tag found.
    NoOpenTag,
    /// Opening tag found but no closing `</braid-seed>` tag.
    NoCloseTag,
    /// Multiple `<braid-seed>` tags found (only one allowed).
    MultipleOpenTags,
}

impl InjectionError {
    /// The user-facing message of the error.
    pub fn message(&self) -> (s: String)
        ensures
            s@ == injection_error_message(*self),
    {
        match self {
            InjectionError::NoOpenTag => {
                let s = "no <braid-seed> tag found. Add these tags to your AGENTS.md:\n\n<braid-seed>\n<!-- braid will inject dynamic context here -->\n</braid-seed>";
                s.to_owned()
            },
            InjectionError::NoCloseTag => {
                "found <braid-seed> but no matching </braid-seed> tag".to_owned()
            },
            InjectionError::MultipleOpenTags => {
                "multiple <braid-seed> tags found \u{2014} only one injection point is allowed".to_owned()
            },
        }
    }
}

/// The message text of each error.
pub open spec fn injection_error_message(e: InjectionError) -> Seq<char> {
    match e {
        InjectionError::NoOpenTag => "no <braid-seed> tag found. Add these tags to your AGENTS.md:\n\n<braid-seed>\n<!-- braid will inject dynamic context here -->\n</braid-seed>"@,
        InjectionError::NoCloseTag => "found <braid-seed> but no matching </braid-seed> tag"@,
        InjectionError::MultipleOpenTags => "multiple <braid-seed> tags found \u{2014} only one injection point is allowed"@,
    }
}

// ---------------------------------------------------------------------------
// Tags and fences
// ---------------------------------------------------------------------------

/// The bytes of `<braid-seed>`.
pub open spec fn open_tag() -> Seq<u8> {
    seq![0x3cu8, 0x62, 0x72, 0x61, 0x69, 0x64, 0x2d, 0x73, 0x65, 0x65, 0x64, 0x3e]
}

/// The bytes of `</braid-seed>`.
pub open spec fn close_tag() -> Seq<u8> {
    seq![0x3cu8, 0x2f, 0x62, 0x72, 0x61, 0x69, 0x64, 0x2d, 0x73, 0x65, 0x65, 0x64, 0x3e]
}

/// The bytes of a markdown code fence, three backticks.
pub open spec fn fence() -> Seq<u8> {
    seq![0x60u8, 0x60, 0x60]
}

fn open_tag_bytes() -> (v: Vec<u8>)
    ensures
        v@ == open_tag(),
{
    let v: Vec<u8> = vec![0x3cu8, 0x62, 0x72, 0x61, 0x69, 0x64, 0x2d, 0x73, 0x65, 0x65, 0x64, 0x3e];
    assert(v@ =~= open_tag());
    v
}

fn close_tag_bytes() -> (v: Vec<u8>)
    ensures
        v@ == close_tag(),
{
    let v: Vec<u8> = vec![
        0x3cu8,
        0x2f,
        0x62,
        0x72,
        0x61,
        0x69,
        0x64,
        0x2d,
        0x73,
        0x65,
        0x65,
        0x64,
        0x3e,
    ];
    assert(v@ =~= close_tag());
    v
}

fn fence_bytes() -> (v: Vec<u8>)
    ensures
        v@ == fence(),
{
    let v: Vec<u8> = vec![0x60u8, 0x60, 0x60];
    assert(v@ =~= fence());
    v
}

// ---------------------------------------------------------------------------
// Lines and code blocks
// ---------------------------------------------------------------------------

/// Start of the line holding position `p`: just after the last `\n` before
/// `p`, or 0.
pub open spec fn line_start(b: Seq<u8>, p: int) -> int
    decreases p,
{
    if p <= 0 {
        0
    } else if p <= b.len() && b[p - 1] == 0x0a {
        p
    } else {
        line_start(b, p - 1)
    }
}

/// `i` starts a line.
pub open spec fn is_line_start(b: Seq<u8>, i: int) -> bool {
    i == 0 || (0 < i <= b.len() && b[i - 1] == 0x0a)
}

/// The line starting at `i` is a code fence: after its leading white space it
/// begins with three backticks.
pub open spec fn is_fence_line(b: Seq<u8>, i: int) -> bool {
    let e = nl_from(b, i);
    let t = skip_ws(b, i, e);
    t + 3 <= e && occurs_at(b, fence(), t)
}

/// Whether a code block is open when the line starting at `i` is reached:
/// the parity of the fence lines before it.
pub open spec fn block_open_at(b: Seq<u8>, i: int) -> bool
    decreases i,
{
    if i <= 0 || i > b.len() {
        false
    } else {
        let j = line_start(b, i - 1);
        if 0 <= j < i {
            block_open_at(b, j) != is_fence_line(b, j)
        } else {
            false
        }
    }
}

/// Byte `p` lies inside a fenced code block: on a line inside an open block,
/// on an opening fence line (with its newline), or on a closing fence line
/// (without its newline).
pub open spec fn in_block(b: Seq<u8>, p: int) -> bool {
    let i = line_start(b, p);
    if is_fence_line(b, i) {
        !block_open_at(b, i) || p < nl_from(b, i)
    } else {
        block_open_at(b, i)
    }
}

/// The code block ranges of `b[i..]` when `open` holds the start of a block
/// opened earlier: one `(start, end)` pair per block, `end` being the end of
/// its closing fence line (without the newline), or the length of the text
/// for a block never closed.
pub open spec fn ranges_from(b: Seq<u8>, i: int, open: Option<int>) -> Seq<(int, int)>
    decreases b.len() + 1 - i,
{
    if i < 0 || i > b.len() {
        Seq::empty()
    } else {
        let e = nl_from(b, i);
        let f = is_fence_line(b, i);
        let emit: Seq<(int, int)> = if f && open is Some {
            seq![(open->0, e)]
        } else {
            Seq::empty()
        };
        let next: Option<int> = if f {
            if open is Some {
                None
            } else {
                Some(i)
            }
        } else {
            open
        };
        if e < b.len() && e + 1 > i {
            emit + ranges_from(b, e + 1, next)
        } else {
            emit + match next {
                Some(s) => seq![(s, b.len() as int)],
                None => Seq::empty(),
            }
        }
    }
}

/// The code block ranges of a text.
pub open spec fn code_ranges(b: Seq<u8>) -> Seq<(int, int)> {
    ranges_from(b, 0, None)
}

/// Some range holds `p`.
pub open spec fn covered(r: Seq<(int, int)>, p: int) -> bool {
    exists|k: int| 0 <= k < r.len() && #[trigger] r[k].0 <= p && p < r[k].1
}

pub proof fn lemma_line_start(b: Seq<u8>, p: int)
    requires
        0 <= p <= b.len(),
    ensures
        0 <= line_start(b, p) <= p,
        is_line_start(b, line_start(b, p)),
        forall|k: int| line_start(b, p) <= k < p ==> b[k] != 0x0a,
    decreases p,
{
    if p > 0 && b[p - 1] != 0x0a {
        lemma_line_start(b, p - 1);
    }
}

/// Positions of one line share its start.
pub proof fn lemma_line_start_within(b: Seq<u8>, i: int, p: int)
    requires
        is_line_start(b, i),
        0 <= i <= p <= b.len(),
        forall|k: int| i <= k < p ==> b[k] != 0x0a,
    ensures
        line_start(b, p) == i,
    decreases p,
{
    if p > i {
        lemma_line_start_within(b, i, p - 1);
    }
}

/// Structure of `ranges_from`: with no open block every range starts at or
/// after `i`; with an open block the first range is that block, ending at or
/// after `i`, and the others start after `i`.
pub proof fn lemma_ranges_shape(b: Seq<u8>, i: int, open: Option<int>)
    requires
        0 <= i <= b.len(),
    ensures
        ({
            let r = ranges_from(b, i, open);
            &&& open is None ==> forall|k: int| 0 <= k < r.len() ==> r[k].0 >= i
            &&& open matches Some(s) ==> {
                &&& r.len() >= 1
                &&& r[0].0 == s
                &&& r[0].1 >= i
                &&& forall|k: int| 1 <= k < r.len() ==> r[k].0 >= i
            }
        }),
    decreases b.len() + 1 - i,
{
    let e = nl_from(b, i);
    lemma_nl_from(b, i);
    let f = is_fence_line(b, i);
    let emit: Seq<(int, int)> = if f && open is Some {
        seq![(open->0, e)]
    } else {
        Seq::empty()
    };
    let next: Option<int> = if f {
        if open is Some {
            None
        } else {
            Some(i)
        }
    } else {
        open
    };
    let r = ranges_from(b, i, open);
    if e < b.len() && e + 1 > i {
        let rest = ranges_from(b, e + 1, next);
        assert(r == emit + rest);
        lemma_ranges_shape(b, e + 1, next);
        assert forall|k: int| emit.len() <= k < r.len() implies r[k] == rest[k - emit.len()] by {
        }
        if open is Some && !f {
            assert(r[0] == rest[0]);
        }
    } else {
        let tail: Seq<(int, int)> = match next {
            Some(s) => seq![(s, b.len() as int)],
            None => Seq::empty(),
        };
        assert(r == emit + tail);
        assert forall|k: int| emit.len() <= k < r.len() implies r[k] == tail[k - emit.len()] by {
        }
    }
}

/// Membership in the computed ranges is exactly `in_block`, for every
/// position from line start `i` on.
pub proof fn lemma_ranges_cover(b: Seq<u8>, i: int, open: Option<int>)
    requires
        0 <= i <= b.len(),
        is_line_start(b, i),
        (open is Some) == block_open_at(b, i),
        open matches Some(s) ==> s < i,
    ensures
        forall|p: int|
            i <= p < b.len() ==> (covered(ranges_from(b, i, open), p) <==> in_block(b, p)),
    decreases b.len() + 1 - i,
{
    let e = nl_from(b, i);
    lemma_nl_from(b, i);
    let f = is_fence_line(b, i);
    let emit: Seq<(int, int)> = if f && open is Some {
        seq![(open->0, e)]
    } else {
        Seq::empty()
    };
    let next: Option<int> = if f {
        if open is Some {
            None
        } else {
            Some(i)
        }
    } else {
        open
    };
    let r = ranges_from(b, i, open);
    // Positions on this line.
    assert forall|p: int| i <= p <= e && p < b.len() implies line_start(b, p) == i by {
        lemma_line_start_within(b, i, p);
    }
    if e < b.len() && e + 1 > i {
        let rest = ranges_from(b, e + 1, next);
        assert(r == emit + rest);
        lemma_line_start_within(b, i, e);
        assert(line_start(b, e) == i);
        assert(block_open_at(b, e + 1) == (block_open_at(b, i) != f));
        lemma_ranges_cover(b, e + 1, next);
        lemma_ranges_shape(b, e + 1, next);
        assert forall|k: int| emit.len() <= k < r.len() implies r[k] == rest[k - emit.len()] by {
        }
        assert forall|p: int| i <= p < b.len() implies (covered(r, p) <==> in_block(b, p)) by {
            if p > e {
                if covered(r, p) {
                    let k = choose|k: int| 0 <= k < r.len() && #[trigger] r[k].0 <= p && p < r[k].1;
                    if k >= emit.len() {
                        assert(rest[k - emit.len()] == r[k]);
                        assert(covered(rest, p));
                    }
                }
                if covered(rest, p) {
                    let k = choose|k: int|
                        0 <= k < rest.len() && #[trigger] rest[k].0 <= p && p < rest[k].1;
                    assert(r[k + emit.len()] == rest[k]);
                }
            } else {
                assert(line_start(b, p) == i);
                if f && open is Some {
                    assert(r[0] == (open->0, e));
                    assert(forall|k: int| 0 <= k < rest.len() ==> rest[k].0 >= e + 1);
                    if covered(r, p) {
                        let k = choose|k: int|
                            0 <= k < r.len() && #[trigger] r[k].0 <= p && p < r[k].1;
                        if k >= 1 {
                            assert(r[k] == rest[k - 1]);
                        }
                    }
                    if p < e {
                        assert(r[0].0 <= p && p < r[0].1);
                    }
                } else if f {
                    assert(r == rest);
                    assert(rest[0].0 == i && rest[0].1 >= e + 1);
                    assert(r[0].0 <= p && p < r[0].1);
                } else if open is Some {
                    assert(r == rest);
                    assert(rest[0].1 >= e + 1);
                    assert(r[0].0 <= p && p < r[0].1);
                } else {
                    assert(r == rest);
                    assert(forall|k: int| 0 <= k < rest.len() ==> rest[k].0 >= e + 1);
                    if covered(r, p) {
                        let k = choose|k: int|
                            0 <= k < r.len() && #[trigger] r[k].0 <= p && p < r[k].1;
                    }
                }
            }
        }
    } else {
        let tail: Seq<(int, int)> = match next {
            Some(s) => seq![(s, b.len() as int)],
            None => Seq::empty(),
        };
        assert(r == emit + tail);
        assert(e == b.len());
        assert forall|p: int| i <= p < b.len() implies (covered(r, p) <==> in_block(b, p)) by {
            assert(line_start(b, p) == i);
            if f && open is Some {
                assert(r =~= seq![(open->0, e)]);
                assert(r[0].0 <= p && p < r[0].1);
            } else if f {
                assert(r =~= seq![(i, b.len() as int)]);
                assert(r[0].0 <= p && p < r[0].1);
            } else if open is Some {
                assert(r =~= seq![(open->0, b.len() as int)]);
                assert(r[0].0 <= p && p < r[0].1);
            } else {
                assert(r =~= Seq::<(int, int)>::empty());
            }
        }
    }
}

// ---------------------------------------------------------------------------
// Finding the injection point
// ---------------------------------------------------------------------------

/// A `<braid-seed>` tag starts at `i` outside every code block.
pub open spec fn live_open(b: Seq<u8>, i: int) -> bool {
    occurs_at(b, open_tag(), i) && !in_block(b, i)
}

/// Where the content starts after an opening tag at `t`: after the tag, and
/// after one newline if one follows it.
pub open spec fn content_start_after(b: Seq<u8>, t: int) -> int {
    let after = t + open_tag().len();
    if after < b.len() && b[after] == 0x0a {
        after + 1
    } else {
        after
    }
}

/// Where the tagged region ends for a closing tag at `c`: after the tag, and
/// after one newline if one follows it.
pub open spec fn tag_end_after(b: Seq<u8>, c: int) -> int {
    let raw = c + close_tag().len();
    if raw < b.len() && b[raw] == 0x0a {
        raw + 1
    } else {
        raw
    }
}

/// A `</braid-seed>` tag starts at `i` outside every code block.
pub open spec fn live_close(b: Seq<u8>, i: int) -> bool {
    occurs_at(b, close_tag(), i) && !in_block(b, i)
}

/// The first closing tag outside code blocks at or after `i`.
pub open spec fn first_live_close(b: Seq<u8>, i: int) -> Option<int>
    decreases b.len() + 1 - i,
{
    if i < 0 || i > b.len() {
        None
    } else if live_close(b, i) {
        Some(i)
    } else {
        first_live_close(b, i + 1)
    }
}

/// What `first_live_close` finds: a live closing tag with none before it, or
/// none at all.
pub proof fn lemma_first_live_close(b: Seq<u8>, i: int)
    requires
        0 <= i,
    ensures
        match first_live_close(b, i) {
            Some(k) => i <= k && live_close(b, k) && forall|j: int|
                i <= j < k ==> !#[trigger] live_close(b, j),
            None => forall|j: int| i <= j ==> !#[trigger] live_close(b, j),
        },
    decreases b.len() + 1 - i,
{
    if i <= b.len() && !live_close(b, i) {
        lemma_first_live_close(b, i + 1);
    }
    if i > b.len() {
        assert forall|j: int| i <= j implies !#[trigger] live_close(b, j) by {
            assert(!occurs_at(b, close_tag(), j));
        }
    }
}

/// The first live closing tag from `from` is `c` when `c` is live and none
/// lies between.
pub proof fn lemma_first_live_close_is(b: Seq<u8>, from: int, c: int)
    requires
        0 <= from <= c,
        live_close(b, c),
        forall|j: int| from <= j < c ==> !#[trigger] live_close(b, j),
    ensures
        first_live_close(b, from) == Some(c),
    decreases c - from,
{
    assert(c <= b.len()) by {
        assert(occurs_at(b, close_tag(), c));
    }
    if from < c {
        assert(!live_close(b, from));
        lemma_first_live_close_is(b, from + 1, c);
    }
}

/// The injection point of a text, as `(tag_start, tag_end, content_start,
/// content_end)`: the one opening tag outside code blocks, and the first
/// closing tag outside code blocks at or after its content start.
pub open spec fn spec_find(b: Seq<u8>) -> Result<(int, int, int, int), InjectionError> {
    if !exists|i: int| #[trigger] live_open(b, i) {
        Err(InjectionError::NoOpenTag)
    } else if exists|i: int, j: int| i < j && #[trigger] live_open(b, i) && #[trigger] live_open(b, j) {
        Err(InjectionError::MultipleOpenTags)
    } else {
        let t = choose|i: int| #[trigger] live_open(b, i);
        let cs = content_start_after(b, t);
        match first_live_close(b, cs) {
            None => Err(InjectionError::NoCloseTag),
            Some(c) => Ok((t, tag_end_after(b, c), cs, c)),
        }
    }
}

/// The point as a tuple of integers.
pub open spec fn point_view(p: InjectionPoint) -> (int, int, int, int) {
    (p.tag_start as int, p.tag_end as int, p.content_start as int, p.content_end as int)
}

/// The text between the tags of a point.
pub open spec fn spec_get(b: Seq<u8>, p: (int, int, int, int)) -> Seq<u8> {
    b.subrange(p.2, p.3)
}

/// Find byte ranges of markdown code blocks (triple backtick sections).
fn find_code_block_ranges(text: &str) -> (ranges: Vec<(usize, usize)>)
    ensures
        ranges@.map_values(|r: (usize, usize)| (r.0 as int, r.1 as int)) == code_ranges(
            utf8(text@),
        ),
{
    let b = text.as_bytes();
    let ghost bs = b@;
    let fb = fence_bytes();
    let mut ranges: Vec<(usize, usize)> = Vec::new();
    let mut in_block = false;
    let mut block_start: usize = 0;
    let mut offset: usize = 0;
    loop
        invariant
            bs == b@,
            bs == utf8(text@),
            fb@ == fence(),
            offset <= bs.len(),
            in_block ==> block_start < offset,
            ranges@.map_values(|r: (usize, usize)| (r.0 as int, r.1 as int)) + ranges_from(
                bs,
                offset as int,
                if in_block {
                    Some(block_start as int)
                } else {
                    None
                },
            ) == code_ranges(bs),
        decreases bs.len() + 1 - offset,
    {
        let ghost open: Option<int> = if in_block {
            Some(block_start as int)
        } else {
            None
        };
        let ghost old_ranges = ranges@.map_values(|r: (usize, usize)| (r.0 as int, r.1 as int));
        let e = nl_from_exec(b, offset);
        let t = skip_ws_exec(b, offset, e);
        let is_fence = e - t >= 3 && matches_at(b, &fb, t);
        assert(is_fence == is_fence_line(bs, offset as int));
        let ghost emit: Seq<(int, int)> = if is_fence && in_block {
            seq![(block_start as int, e as int)]
        } else {
            Seq::empty()
        };
        let ghost next: Option<int> = if is_fence {
            if in_block {
                None
            } else {
                Some(offset as int)
            }
        } else {
            open
        };
        if is_fence {
            if in_block {
                ranges.push((block_start, e));
                in_block = false;
            } else {
                block_start = offset;
                in_block = true;
            }
        }
        let ghost new_ranges = ranges@.map_values(|r: (usize, usize)| (r.0 as int, r.1 as int));
        assert(new_ranges =~= old_ranges + emit);
        if e < b.len() {
            assert(ranges_from(bs, offset as int, open) == emit + ranges_from(bs, e + 1, next));
            assert(old_ranges + (emit + ranges_from(bs, e + 1, next)) =~= new_ranges
                + ranges_from(bs, e + 1, next));
            offset = e + 1;
        } else {
            let ghost tail: Seq<(int, int)> = match next {
                Some(s) => seq![(s, bs.len() as int)],
                None => Seq::empty(),
            };
            assert(ranges_from(bs, offset as int, open) == emit + tail);
            if in_block {
                ranges.push((block_start, b.len()));
            }
            let ghost fin = ranges@.map_values(|r: (usize, usize)| (r.0 as int, r.1 as int));
            assert(fin =~= old_ranges + (emit + tail));
            return ranges;
        }
    }
}

/// Check if a byte position falls within any code block range.
fn in_code_block(pos: usize, ranges: &Vec<(usize, usize)>) -> (r: bool)
    ensures
        r == covered(ranges@.map_values(|x: (usize, usize)| (x.0 as int, x.1 as int)), pos as int),
{
    let ghost m = ranges@.map_values(|x: (usize, usize)| (x.0 as int, x.1 as int));
    let mut k: usize = 0;
    while k < ranges.len()
        invariant
            k <= ranges@.len(),
            m == ranges@.map_values(|x: (usize, usize)| (x.0 as int, x.1 as int)),
            forall|j: int| 0 <= j < k ==> !(m[j].0 <= pos && pos < m[j].1),
        decreases ranges.len() - k,
    {
        let (s, e) = ranges[k];
        if pos >= s && pos < e {
            assert(m[k as int].0 <= pos && pos < m[k as int].1);
            return true;
        }
        k = k + 1;
    }
    assert forall|j: int| 0 <= j < m.len() implies !(#[trigger] m[j].0 <= pos && pos < m[j].1) by {
    }
    false
}

/// Two opening tags cannot overlap: `<` appears in the tag only first.
pub proof fn lemma_open_tags_apart(b: Seq<u8>, i: int, j: int)
    requires
        occurs_at(b, open_tag(), i),
        occurs_at(b, open_tag(), j),
        i < j,
    ensures
        j >= i + 12,
{
    if j < i + 12 {
        assert(b[j] == open_tag()[0]);
        assert(b.subrange(i, i + 12)[j - i] == b[j]);
    }
}

/// Find the injection point in `text` between `<braid-seed>` and
/// `</braid-seed>` tags, ignoring tags inside markdown code blocks.
/// Returns byte offsets for precise string slicing.
pub fn find_injection_point(text: &str) -> (res: Result<InjectionPoint, InjectionError>)
    ensures
        match res {
            Ok(p) => {
                &&& spec_find(utf8(text@)) == Ok::<(int, int, int, int), InjectionError>(
                    point_view(p),
                )
                &&& p.tag_start < p.content_start <= p.content_end < p.tag_end <= utf8(text@).len()
                &&& boundary(utf8(text@), p.content_start as int)
                &&& boundary(utf8(text@), p.content_end as int)
            },
            Err(e) => spec_find(utf8(text@)) == Err::<(int, int, int, int), InjectionError>(e),
        },
{
    let b = text.as_bytes();
    let ghost bs = b@;
    let code = find_code_block_ranges(text);
    let ghost cr = code@.map_values(|x: (usize, usize)| (x.0 as int, x.1 as int));
    proof {
        lemma_ranges_cover(bs, 0, None);
    }
    assert(forall|p: int| 0 <= p < bs.len() ==> (covered(cr, p) <==> in_block(bs, p)));
    let open = open_tag_bytes();
    let close = close_tag_bytes();

    // Scan all opening tags, keeping the first one outside a code block.
    let mut count: usize = 0;
    let mut first: usize = 0;
    let mut search: usize = 0;
    loop
        invariant
            bs == b@,
            bs == utf8(text@),
            open@ == open_tag(),
            cr == code@.map_values(|x: (usize, usize)| (x.0 as int, x.1 as int)),
            forall|p: int| 0 <= p < bs.len() ==> (covered(cr, p) <==> in_block(bs, p)),
            search <= bs.len() + 1,
            count <= 1,
            count == 0 ==> forall|i: int| 0 <= i < search ==> !#[trigger] live_open(bs, i),
            count == 1 ==> first < search && live_open(bs, first as int) && forall|i: int|
                0 <= i < search && i != first ==> !#[trigger] live_open(bs, i),
        ensures
            count <= 1,
            count == 0 ==> forall|i: int| 0 <= i < search ==> !#[trigger] live_open(bs, i),
            count == 1 ==> first < search && live_open(bs, first as int) && forall|i: int|
                0 <= i < search && i != first ==> !#[trigger] live_open(bs, i),
            forall|i: int| search <= i ==> !#[trigger] live_open(bs, i),
        decreases bs.len() + 1 - search,
    {
        if search > b.len() {
            assert forall|i: int| search <= i implies !#[trigger] live_open(bs, i) by {
                assert(!occurs_at(bs, open_tag(), i));
            }
            break;
        }
        match find_from(b, &open, search) {
            None => {
                assert forall|i: int| search <= i implies !#[trigger] live_open(bs, i) by {
                    assert(!occurs_at(bs, open_tag(), i));
                }
                break;
            },
            Some(p) => {
                let outside = !in_code_block(p, &code);
                assert(outside == !in_block(bs, p as int));
                assert forall|i: int| search <= i < p implies !#[trigger] live_open(bs, i) by {
                    assert(!occurs_at(bs, open_tag(), i));
                }
                assert forall|i: int| p < i < p + 12 implies !#[trigger] live_open(bs, i) by {
                    if occurs_at(bs, open_tag(), i) {
                        lemma_open_tags_apart(bs, p as int, i);
                    }
                }
                if outside {
                    if count == 1 {
                        assert(live_open(bs, first as int) && live_open(bs, p as int));
                        assert((first as int) < (p as int));
                        assert(exists|i: int| #[trigger] live_open(bs, i));
                        assert(spec_find(bs) == Err::<(int, int, int, int), InjectionError>(
                            InjectionError::MultipleOpenTags,
                        ));
                        return Err(InjectionError::MultipleOpenTags);
                    }
                    first = p;
                    count = 1;
                }
                search = p + 12;
            },
        }
    }
    if count == 0 {
        assert forall|i: int| !#[trigger] live_open(bs, i) by {
            if i < 0 {
                assert(!occurs_at(bs, open_tag(), i));
            }
        }
        return Err(InjectionError::NoOpenTag);
    }
    assert(forall|i: int, j: int|
        #![trigger live_open(bs, i), live_open(bs, j)]
        i < j && live_open(bs, i) ==> !live_open(bs, j)) by {
        assert forall|i: int, j: int|
            #![trigger live_open(bs, i), live_open(bs, j)]
            i < j && live_open(bs, i) implies !live_open(bs, j) by {
            if live_open(bs, j) {
                assert(i == first as int);
                assert(j == first as int);
            }
        }
    }
    let tag_start = first;
    assert(occurs_at(bs, open_tag(), tag_start as int));
    assert(open_tag().len() == 12);
    assert(tag_start + 12 <= bs.len());
    assert(bs.len() == b.len());
    assert((choose|i: int| #[trigger] live_open(bs, i)) == tag_start as int);
    let after_open = tag_start + 12;
    let content_start = if after_open < b.len() && b[after_open] == 0x0a {
        after_open + 1
    } else {
        after_open
    };
    assert(content_start == content_start_after(bs, tag_start as int));
    // The first closing tag after the content start outside a code block.
    let mut from: usize = content_start;
    let mut close_pos: usize = 0;
    assert(spec_find(bs) == match first_live_close(bs, content_start as int) {
        None => Err(InjectionError::NoCloseTag),
        Some(c) => Ok::<(int, int, int, int), InjectionError>(
            (tag_start as int, tag_end_after(bs, c), content_start as int, c),
        ),
    });
    loop
        invariant
            bs == b@,
            bs == utf8(text@),
            spec_find(bs) == match first_live_close(bs, content_start as int) {
                None => Err(InjectionError::NoCloseTag),
                Some(c) => Ok::<(int, int, int, int), InjectionError>(
                    (tag_start as int, tag_end_after(bs, c), content_start as int, c),
                ),
            },
            close@ == close_tag(),
            cr == code@.map_values(|x: (usize, usize)| (x.0 as int, x.1 as int)),
            forall|p: int| 0 <= p < bs.len() ==> (covered(cr, p) <==> in_block(bs, p)),
            content_start <= from <= bs.len() + 1,
            forall|j: int| content_start <= j < from ==> !#[trigger] live_close(bs, j),
        ensures
            first_live_close(bs, content_start as int) == Some(close_pos as int),
        decreases bs.len() + 1 - from,
    {
        if from > b.len() {
            proof {
                assert forall|j: int| content_start <= j implies !#[trigger] live_close(bs, j) by {
                    if j >= from {
                        assert(!occurs_at(bs, close_tag(), j));
                    }
                }
                lemma_first_live_close(bs, content_start as int);
            }
            return Err(InjectionError::NoCloseTag);
        }
        match find_from(b, &close, from) {
            None => {
                proof {
                    assert forall|j: int| content_start <= j implies !#[trigger] live_close(bs, j) by {
                        if j >= from {
                            assert(!occurs_at(bs, close_tag(), j));
                        }
                    }
                    lemma_first_live_close(bs, content_start as int);
                }
                return Err(InjectionError::NoCloseTag);
            },
            Some(c) => {
                assert forall|j: int| from <= j < c implies !#[trigger] live_close(bs, j) by {
                    assert(!occurs_at(bs, close_tag(), j));
                }
                if !in_code_block(c, &code) {
                    proof {
                        assert(live_close(bs, c as int));
                        lemma_first_live_close_is(bs, content_start as int, c as int);
                    }
                    close_pos = c;
                    break;
                }
                assert(!live_close(bs, c as int));
                from = c + 1;
            },
        }
    }
    let content_end = close_pos;
    proof {
        lemma_first_live_close(bs, content_start as int);
        assert(bs[after_open - 1] == bs.subrange(tag_start as int, tag_start + 12)[11]);
        lemma_after_ascii(bs, after_open - 1);
        if content_start > after_open {
            lemma_after_ascii(bs, after_open as int);
        }
        assert(close_tag().len() == 13);
        assert(bs[close_pos as int] == bs.subrange(close_pos as int, close_pos + 13)[0]);
        lemma_after_ascii(bs, close_pos as int);
    }
    let tag_end_raw = content_end + 13;
    let tag_end = if tag_end_raw < b.len() && b[tag_end_raw] == 0x0a {
        tag_end_raw + 1
    } else {
        tag_end_raw
    };
    Ok(InjectionPoint { tag_start, tag_end, content_start, content_end })
}

// ---------------------------------------------------------------------------
// Injecting content
// ---------------------------------------------------------------------------

/// The content as it is written between the tags: a newline is added to
/// non-empty content that lacks one.
pub open spec fn with_newline(c: Seq<u8>) -> Seq<u8> {
    if c.len() > 0 && c.last() != 0x0a {
        c.push(0x0a)
    } else {
        c
    }
}

/// The `set` of the lens: the text before `content_start`, the new content,
/// and the text from `content_end` on.
pub open spec fn spec_inject(b: Seq<u8>, cs: int, ce: int, c: Seq<u8>) -> Seq<u8> {
    b.subrange(0, cs) + with_newline(c) + b.subrange(ce, b.len() as int)
}

/// Apply injection: replace content between tags with new content.
///
/// This is the `set` operation of the lens. Preserves all text outside the
/// tags.  The offsets must lie on character boundaries of `text`.
pub fn inject(text: &str, point: &InjectionPoint, content: &str) -> (res: String)
    requires
        point.content_start <= utf8(text@).len(),
        point.content_end <= utf8(text@).len(),
        boundary(utf8(text@), point.content_start as int),
        boundary(utf8(text@), point.content_end as int),
    ensures
        utf8(res@) == spec_inject(
            utf8(text@),
            point.content_start as int,
            point.content_end as int,
            utf8(content@),
        ),
{
    let b = text.as_bytes();
    let c = content.as_bytes();
    let mut out: Vec<u8> = Vec::new();
    push_range(&mut out, b, 0, point.content_start);
    push_all(&mut out, c);
    if c.len() > 0 && c[c.len() - 1] != 0x0a {
        out.push(0x0a);
    }
    let ghost mid = out@;
    push_range(&mut out, b, point.content_end, b.len());
    proof {
        let bs = b@;
        let pre = bs.subrange(0, point.content_start as int);
        let post = bs.subrange(point.content_end as int, bs.len() as int);
        let wc = with_newline(c@);
        assert(out@ =~= pre + wc + post);
        lemma_valid_sub(bs, 0, point.content_start as int);
        lemma_valid_sub(bs, point.content_end as int, bs.len() as int);
        if c@.len() > 0 && c@.last() != 0x0a {
            lemma_ascii_valid(seq![0x0au8]);
            valid_utf8_concat(c@, seq![0x0au8]);
            assert(wc =~= c@ + seq![0x0au8]);
        }
        lemma_valid_concat3(pre, wc, post);
    }
    bytes_to_string(out)
}

} // verus!
