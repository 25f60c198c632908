//! Byte-level text model shared by the parsers of this crate.
//!
//! Every string is looked at through its UTF-8 bytes (`str::as_bytes`), and
//! every offset is a byte offset, as in `&text[a..b]`.  The spec functions
//! here describe the primitive operations (searching, trimming Unicode white
//! space, splitting into lines, decimal numbers) exactly, so that the parsers
//! built on them can be specified in terms of them.
use vstd::prelude::*;
use vstd::utf8::*;

verus! {

broadcast use vstd::utf8::group_utf8_lib;

// ---------------------------------------------------------------------------
// UTF-8 facts
// ---------------------------------------------------------------------------

/// The UTF-8 bytes of a character sequence (the bytes of a `str` or `String`).
pub open spec fn utf8(cs: Seq<char>) -> Seq<u8> {
    encode_utf8(cs)
}

/// `i` is a character boundary of `b`: the end, or a byte that does not
/// continue an earlier character.
pub open spec fn boundary(b: Seq<u8>, i: int) -> bool {
    i == b.len() || (0 <= i < b.len() && !is_continuation_byte(b[i]))
}

/// Every byte is ASCII.
pub open spec fn all_ascii(b: Seq<u8>) -> bool {
    forall|k: int| 0 <= k < b.len() ==> #[trigger] b[k] < 0x80
}

pub proof fn lemma_utf8_concat(a: Seq<char>, c: Seq<char>)
    ensures
        utf8(a + c) == utf8(a) + utf8(c),
    decreases a.len(),
{
    if a.len() == 0 {
        assert(a + c =~= c);
        assert(utf8(a) =~= Seq::<u8>::empty());
        assert(utf8(a) + utf8(c) =~= utf8(c));
    } else {
        lemma_utf8_concat(a.drop_first(), c);
        assert((a + c).drop_first() =~= a.drop_first() + c);
        assert((a + c)[0] == a[0]);
        assert(utf8(a + c) =~= encode_scalar(a[0] as u32) + utf8(a.drop_first() + c));
        assert(utf8(a) =~= encode_scalar(a[0] as u32) + utf8(a.drop_first()));
    }
}

pub proof fn lemma_ascii_valid(b: Seq<u8>)
    requires
        all_ascii(b),
    ensures
        valid_utf8(b),
{
    assert(b.subrange(0, 0) =~= Seq::<u8>::empty());
    assert(valid_utf8(Seq::<u8>::empty()));
    assert(partial_valid_utf8(b, 0));
    assert forall|i: int| 0 <= 0 <= i < b.len() <= b.len() implies #[trigger] is_leading_byte_width_1(
        b[i],
    ) by {
        assert(b[i] < 0x80);
    }
    partial_valid_utf8_extend_ascii_block(b, 0, b.len() as int);
    assert(b.subrange(0, b.len() as int) =~= b);
}

pub proof fn lemma_first_not_continuation(b: Seq<u8>)
    requires
        valid_utf8(b),
        b.len() > 0,
    ensures
        !is_continuation_byte(b[0]),
{
}

/// In valid UTF-8 the character boundaries are exactly the positions of
/// non-continuation bytes (and the end).
pub proof fn lemma_boundary(b: Seq<u8>, i: int)
    requires
        valid_utf8(b),
        0 <= i <= b.len(),
    ensures
        is_char_boundary(b, i) <==> boundary(b, i),
{
    if i == b.len() {
        is_char_boundary_start_end_of_seq(b);
    } else {
        is_char_boundary_iff_not_is_continuation_byte(b, i);
    }
}

/// The bytes between two boundaries of valid UTF-8 are valid UTF-8.
pub proof fn lemma_valid_sub(b: Seq<u8>, i: int, j: int)
    requires
        valid_utf8(b),
        0 <= i <= j <= b.len(),
        boundary(b, i),
        boundary(b, j),
    ensures
        valid_utf8(b.subrange(i, j)),
{
    lemma_boundary(b, i);
    valid_utf8_split(b, i);
    let s = b.subrange(i, b.len() as int);
    if j < b.len() {
        assert(s[j - i] == b[j]);
    }
    assert(boundary(s, j - i));
    lemma_boundary(s, j - i);
    valid_utf8_split(s, j - i);
    assert(s.subrange(0, j - i) =~= b.subrange(i, j));
}

/// The position after an ASCII byte of valid UTF-8 is a boundary.
pub proof fn lemma_after_ascii(b: Seq<u8>, i: int)
    requires
        valid_utf8(b),
        0 <= i < b.len(),
        b[i] < 0x80,
    ensures
        boundary(b, i),
        boundary(b, i + 1),
{
    if i + 1 < b.len() {
        lemma_boundary(b, i);
        valid_utf8_split(b, i);
        let s = b.subrange(i, b.len() as int);
        assert(s[0] == b[i]);
        assert(length_of_first_scalar(s) == 1);
        assert(pop_first_scalar(s) =~= b.subrange(i + 1, b.len() as int));
        let t = b.subrange(i + 1, b.len() as int);
        assert(valid_utf8(t));
        lemma_first_not_continuation(t);
        assert(t[0] == b[i + 1]);
    }
}

/// The UTF-8 bytes of ASCII characters are ASCII.
pub proof fn lemma_ascii_chars(cs: Seq<char>)
    requires
        is_ascii_chars(cs),
    ensures
        all_ascii(utf8(cs)),
        utf8(cs).len() == cs.len(),
{
    is_ascii_chars_encode_utf8(cs);
    assert forall|k: int| 0 <= k < utf8(cs).len() implies #[trigger] utf8(cs)[k] < 0x80 by {
        assert(cs[k] as u8 == utf8(cs)[k]);
    }
}

/// Valid UTF-8 pieces glue into valid UTF-8.
pub proof fn lemma_valid_concat3(a: Seq<u8>, b: Seq<u8>, c: Seq<u8>)
    requires
        valid_utf8(a),
        valid_utf8(b),
        valid_utf8(c),
    ensures
        valid_utf8(a + b + c),
{
    valid_utf8_concat(a, b);
    valid_utf8_concat(a + b, c);
}

// ---------------------------------------------------------------------------
// Conversion between bytes and strings
// ---------------------------------------------------------------------------

/// `String::from_utf8`: the bytes become a `String` exactly when they are
/// valid UTF-8, and the string then holds exactly those bytes.
#[verifier::external_body]
fn string_from_utf8(v: Vec<u8>) -> (r: Option<String>)
    ensures
        r is Some <==> valid_utf8(v@),
        r matches Some(s) ==> utf8(s@) == v@,
{
    String::from_utf8(v).ok()
}

/// The string whose UTF-8 bytes are `v`.
pub fn bytes_to_string(v: Vec<u8>) -> (s: String)
    requires
        valid_utf8(v@),
    ensures
        utf8(s@) == v@,
{
    match string_from_utf8(v) {
        Some(s) => s,
        None => String::new(),
    }
}

/// The two byte strings are equal.
pub fn bytes_eq(a: &[u8], b: &[u8]) -> (r: bool)
    ensures
        r == (a@ == b@),
{
    if a.len() != b.len() {
        return false;
    }
    let mut k: usize = 0;
    while k < a.len()
        invariant
            a@.len() == b@.len(),
            k <= a@.len(),
            a@.subrange(0, k as int) == b@.subrange(0, k as int),
        decreases a@.len() - k,
    {
        if a[k] != b[k] {
            return false;
        }
        assert(a@.subrange(0, k + 1) =~= a@.subrange(0, k as int).push(a@[k as int]));
        assert(b@.subrange(0, k + 1) =~= b@.subrange(0, k as int).push(b@[k as int]));
        k = k + 1;
    }
    assert(a@.subrange(0, k as int) =~= a@);
    assert(b@.subrange(0, k as int) =~= b@);
    true
}

/// Appends `s[lo..hi]` to `v`.
pub fn push_range(v: &mut Vec<u8>, s: &[u8], lo: usize, hi: usize)
    requires
        lo <= hi <= s@.len(),
    ensures
        final(v)@ == old(v)@ + s@.subrange(lo as int, hi as int),
{
    let mut k = lo;
    while k < hi
        invariant
            lo <= k <= hi <= s@.len(),
            v@ == old(v)@ + s@.subrange(lo as int, k as int),
        decreases hi - k,
    {
        v.push(s[k]);
        k = k + 1;
        assert(s@.subrange(lo as int, k as int) =~= s@.subrange(lo as int, k - 1) + seq![s@[k - 1]]);
    }
}

/// Appends all of `s` to `v`.
pub fn push_all(v: &mut Vec<u8>, s: &[u8])
    ensures
        final(v)@ == old(v)@ + s@,
{
    push_range(v, s, 0, s.len());
    assert(s@.subrange(0, s@.len() as int) =~= s@);
}

/// Appends `s[lo..hi]`, cut at character boundaries of valid UTF-8, so that
/// valid UTF-8 stays valid.
pub fn push_span(v: &mut Vec<u8>, s: &[u8], lo: usize, hi: usize)
    requires
        lo <= hi <= s@.len(),
        valid_utf8(s@),
        boundary(s@, lo as int),
        boundary(s@, hi as int),
        valid_utf8(old(v)@),
    ensures
        final(v)@ == old(v)@ + s@.subrange(lo as int, hi as int),
        valid_utf8(final(v)@),
{
    proof {
        lemma_valid_sub(s@, lo as int, hi as int);
        valid_utf8_concat(v@, s@.subrange(lo as int, hi as int));
    }
    push_range(v, s, lo, hi);
}

/// Appends the UTF-8 bytes of a string, so that valid UTF-8 stays valid.
pub fn push_str_bytes(v: &mut Vec<u8>, s: &str)
    requires
        valid_utf8(old(v)@),
    ensures
        final(v)@ == old(v)@ + utf8(s@),
        valid_utf8(final(v)@),
{
    proof {
        encode_utf8_valid_utf8(s@);
        valid_utf8_concat(v@, utf8(s@));
    }
    push_all(v, s.as_bytes());
}

/// Appends ASCII bytes, so that valid UTF-8 stays valid.
pub fn push_ascii(v: &mut Vec<u8>, s: &[u8])
    requires
        all_ascii(s@),
        valid_utf8(old(v)@),
    ensures
        final(v)@ == old(v)@ + s@,
        valid_utf8(final(v)@),
{
    proof {
        lemma_ascii_valid(s@);
        valid_utf8_concat(v@, s@);
    }
    push_all(v, s);
}

// ---------------------------------------------------------------------------
// Searching
// ---------------------------------------------------------------------------

/// `n` occurs in `h` at position `i`.
pub open spec fn occurs_at(h: Seq<u8>, n: Seq<u8>, i: int) -> bool {
    0 <= i && i + n.len() <= h.len() && h.subrange(i, i + n.len()) == n
}

/// `n` occurs nowhere in `h` starting in `[lo, hi)`.
pub open spec fn absent_between(h: Seq<u8>, n: Seq<u8>, lo: int, hi: int) -> bool {
    forall|j: int| lo <= j < hi ==> !#[trigger] occurs_at(h, n, j)
}

/// `n` occurs somewhere in `h`.
pub open spec fn contains(h: Seq<u8>, n: Seq<u8>) -> bool {
    exists|j: int| #[trigger] occurs_at(h, n, j)
}

/// `h` starts with `n`.
pub open spec fn starts_with(h: Seq<u8>, n: Seq<u8>) -> bool {
    occurs_at(h, n, 0)
}

/// `h` ends with `n`.
pub open spec fn ends_with(h: Seq<u8>, n: Seq<u8>) -> bool {
    n.len() <= h.len() && occurs_at(h, n, h.len() - n.len())
}

pub fn matches_at(h: &[u8], n: &[u8], i: usize) -> (r: bool)
    ensures
        r == occurs_at(h@, n@, i as int),
{
    if i > h.len() || n.len() > h.len() - i {
        return false;
    }
    let mut k: usize = 0;
    while k < n.len()
        invariant
            0 <= k <= n@.len(),
            i <= h@.len(),
            i + n@.len() <= h@.len(),
            n@.len() == n.len(),
            h@.len() == h.len(),
            forall|m: int| 0 <= m < k ==> h@[i + m] == n@[m],
        decreases n.len() - k,
    {
        if h[i + k] != n[k] {
            assert(h@.subrange(i as int, i + n@.len())[k as int] != n@[k as int]);
            return false;
        }
        k = k + 1;
    }
    assert(h@.subrange(i as int, i + n@.len()) =~= n@);
    true
}

/// First occurrence of `n` in `h` at or after `from`.
pub fn find_from(h: &[u8], n: &[u8], from: usize) -> (r: Option<usize>)
    ensures
        match r {
            Some(i) => from <= i && occurs_at(h@, n@, i as int) && absent_between(
                h@,
                n@,
                from as int,
                i as int,
            ),
            None => forall|j: int| from <= j ==> !#[trigger] occurs_at(h@, n@, j),
        },
{
    if from > h.len() {
        return None;
    }
    let mut i = from;
    while i < h.len()
        invariant
            from <= i <= h@.len(),
            absent_between(h@, n@, from as int, i as int),
        decreases h.len() - i,
    {
        if matches_at(h, n, i) {
            return Some(i);
        }
        i = i + 1;
    }
    if matches_at(h, n, i) {
        return Some(i);
    }
    None
}

/// First occurrence of `n` in `h` at or after `i`.
pub open spec fn first_occ(h: Seq<u8>, n: Seq<u8>, i: int) -> Option<int>
    decreases h.len() + 1 - i,
{
    if i < 0 || i > h.len() {
        None
    } else if occurs_at(h, n, i) {
        Some(i)
    } else {
        first_occ(h, n, i + 1)
    }
}

pub proof fn lemma_first_occ(h: Seq<u8>, n: Seq<u8>, i: int)
    requires
        0 <= i,
    ensures
        match first_occ(h, n, i) {
            Some(k) => i <= k && occurs_at(h, n, k) && absent_between(h, n, i, k),
            None => forall|j: int| i <= j ==> !#[trigger] occurs_at(h, n, j),
        },
    decreases h.len() + 1 - i,
{
    if i <= h.len() && !occurs_at(h, n, i) {
        lemma_first_occ(h, n, i + 1);
    }
}

/// Finds the first occurrence of `n` in `h` at or after `from`, as
/// `first_occ` describes it.
pub fn first_occ_exec(h: &[u8], n: &[u8], from: usize) -> (r: Option<usize>)
    ensures
        match r {
            Some(k) => first_occ(h@, n@, from as int) == Some(k as int),
            None => first_occ(h@, n@, from as int) is None,
        },
{
    proof {
        lemma_first_occ(h@, n@, from as int);
    }
    let r = find_from(h, n, from);
    proof {
        match r {
            Some(k) => {
                let f = first_occ(h@, n@, from as int);
                if f != Some(k as int) {
                    assert(f is Some);
                    let j = f->0;
                    if j < k {
                        assert(!occurs_at(h@, n@, j));
                    } else {
                        assert(!occurs_at(h@, n@, k as int));
                    }
                }
            },
            None => {
                if first_occ(h@, n@, from as int) is Some {
                    let j = first_occ(h@, n@, from as int)->0;
                    assert(occurs_at(h@, n@, j));
                }
            },
        }
    }
    r
}

/// Whether `n` occurs anywhere in `h`.
pub fn contains_bytes(h: &[u8], n: &[u8]) -> (r: bool)
    ensures
        r == contains(h@, n@),
{
    match find_from(h, n, 0) {
        Some(i) => true,
        None => {
            assert forall|j: int| !#[trigger] occurs_at(h@, n@, j) by {
                if j < 0 {
                }
            }
            false
        },
    }
}

// ---------------------------------------------------------------------------
// White space (Unicode `White_Space`, as used by `str::trim`)
// ---------------------------------------------------------------------------

/// Byte length of the white-space character whose UTF-8 encoding starts at
/// `i`, or 0 when none does.  The patterns are the encodings of the
/// characters with the Unicode `White_Space` property: U+0009..U+000D, U+0020,
/// U+0085, U+00A0, U+1680, U+2000..U+200A, U+2028, U+2029, U+202F, U+205F and
/// U+3000.
pub open spec fn ws_width(b: Seq<u8>, i: int) -> int {
    if 0 <= i < b.len() {
        let c = b[i];
        if c == 0x09 || c == 0x0a || c == 0x0b || c == 0x0c || c == 0x0d || c == 0x20 {
            1
        } else if c == 0xc2 && i + 1 < b.len() && (b[i + 1] == 0x85 || b[i + 1] == 0xa0) {
            2
        } else if c == 0xe1 && i + 2 < b.len() && b[i + 1] == 0x9a && b[i + 2] == 0x80 {
            3
        } else if c == 0xe2 && i + 2 < b.len() && ((b[i + 1] == 0x80 && ((0x80 <= b[i + 2]
            && b[i + 2] <= 0x8a) || b[i + 2] == 0xa8 || b[i + 2] == 0xa9 || b[i + 2] == 0xaf)) || (
        b[i + 1] == 0x81 && b[i + 2] == 0x9f)) {
            3
        } else if c == 0xe3 && i + 2 < b.len() && b[i + 1] == 0x80 && b[i + 2] == 0x80 {
            3
        } else {
            0
        }
    } else {
        0
    }
}

pub fn ws_width_at(b: &[u8], i: usize) -> (w: usize)
    ensures
        w == ws_width(b@, i as int),
        w <= 3,
{
    if i >= b.len() {
        return 0;
    }
    let c = b[i];
    if c == 0x09 || c == 0x0a || c == 0x0b || c == 0x0c || c == 0x0d || c == 0x20 {
        1
    } else if c == 0xc2 && b.len() - i > 1 && (b[i + 1] == 0x85 || b[i + 1] == 0xa0) {
        2
    } else if c == 0xe1 && b.len() - i > 2 && b[i + 1] == 0x9a && b[i + 2] == 0x80 {
        3
    } else if c == 0xe2 && b.len() - i > 2 && ((b[i + 1] == 0x80 && ((0x80 <= b[i + 2] && b[i
        + 2] <= 0x8a) || b[i + 2] == 0xa8 || b[i + 2] == 0xa9 || b[i + 2] == 0xaf)) || (b[i + 1]
        == 0x81 && b[i + 2] == 0x9f)) {
        3
    } else if c == 0xe3 && b.len() - i > 2 && b[i + 1] == 0x80 && b[i + 2] == 0x80 {
        3
    } else {
        0
    }
}

/// First position at or after `i` (and not beyond `hi`) that does not start
/// a white-space character lying wholly before `hi`: the start of
/// `b[i..hi].trim_start()`.
pub open spec fn skip_ws(b: Seq<u8>, i: int, hi: int) -> int
    decreases hi - i,
{
    if i < hi && ws_width(b, i) > 0 && i + ws_width(b, i) <= hi {
        skip_ws(b, i + ws_width(b, i), hi)
    } else {
        i
    }
}

pub proof fn lemma_skip_ws_bounds(b: Seq<u8>, i: int, hi: int)
    requires
        i <= hi,
    ensures
        i <= skip_ws(b, i, hi) <= hi,
    decreases hi - i,
{
    if i < hi && ws_width(b, i) > 0 && i + ws_width(b, i) <= hi {
        lemma_skip_ws_bounds(b, i + ws_width(b, i), hi);
    }
}

pub fn skip_ws_exec(b: &[u8], i: usize, hi: usize) -> (r: usize)
    requires
        i <= hi <= b@.len(),
    ensures
        r == skip_ws(b@, i as int, hi as int),
        i <= r <= hi,
{
    let mut k = i;
    proof {
        lemma_skip_ws_bounds(b@, i as int, hi as int);
    }
    while k < hi
        invariant
            i <= k <= hi <= b@.len(),
            skip_ws(b@, k as int, hi as int) == skip_ws(b@, i as int, hi as int),
        decreases hi - k,
    {
        let w = ws_width_at(b, k);
        if w > 0 && w <= hi - k {
            k = k + w;
        } else {
            return k;
        }
    }
    k
}

/// Byte length of a white-space character that ends exactly at `j` and
/// starts at or after `lo`, or 0.
pub open spec fn ws_width_before(b: Seq<u8>, lo: int, j: int) -> int {
    if j - 1 >= lo && ws_width(b, j - 1) == 1 {
        1
    } else if j - 2 >= lo && ws_width(b, j - 2) == 2 {
        2
    } else if j - 3 >= lo && ws_width(b, j - 3) == 3 {
        3
    } else {
        0
    }
}

/// End of `b[lo..j].trim_end()`.
pub open spec fn trim_end_pos(b: Seq<u8>, lo: int, j: int) -> int
    decreases j - lo,
{
    if j > lo && ws_width_before(b, lo, j) > 0 {
        trim_end_pos(b, lo, j - ws_width_before(b, lo, j))
    } else {
        j
    }
}

pub proof fn lemma_trim_end_bounds(b: Seq<u8>, lo: int, j: int)
    requires
        lo <= j,
    ensures
        lo <= trim_end_pos(b, lo, j) <= j,
    decreases j - lo,
{
    if j > lo && ws_width_before(b, lo, j) > 0 {
        lemma_trim_end_bounds(b, lo, j - ws_width_before(b, lo, j));
    }
}

pub fn trim_end_exec(b: &[u8], lo: usize, j: usize) -> (r: usize)
    requires
        lo <= j <= b@.len(),
    ensures
        r == trim_end_pos(b@, lo as int, j as int),
        lo <= r <= j,
{
    let mut k = j;
    proof {
        lemma_trim_end_bounds(b@, lo as int, j as int);
    }
    while k > lo
        invariant
            lo <= k <= j <= b@.len(),
            trim_end_pos(b@, lo as int, k as int) == trim_end_pos(b@, lo as int, j as int),
        decreases k - lo,
    {
        let w: usize = if k - 1 >= lo && ws_width_at(b, k - 1) == 1 {
            1
        } else if k >= 2 && k - 2 >= lo && ws_width_at(b, k - 2) == 2 {
            2
        } else if k >= 3 && k - 3 >= lo && ws_width_at(b, k - 3) == 3 {
            3
        } else {
            0
        };
        assert(w == ws_width_before(b@, lo as int, k as int));
        if w == 0 {
            return k;
        }
        k = k - w;
    }
    k
}

/// The position after a white-space character that starts at a boundary of
/// valid UTF-8 is a boundary.
pub proof fn lemma_after_ws(b: Seq<u8>, i: int)
    requires
        valid_utf8(b),
        0 <= i < b.len(),
        boundary(b, i),
        ws_width(b, i) > 0,
    ensures
        boundary(b, i + ws_width(b, i)),
{
    let w = ws_width(b, i);
    if w == 1 {
        lemma_after_ascii(b, i);
    } else {
        lemma_boundary(b, i);
        valid_utf8_split(b, i);
        let s = b.subrange(i, b.len() as int);
        assert(s[0] == b[i]);
        assert(length_of_first_scalar(s) == w);
        let t = b.subrange(i + w, b.len() as int);
        assert(pop_first_scalar(s) =~= t);
        assert(valid_utf8(t));
        if t.len() > 0 {
            lemma_first_not_continuation(t);
            assert(t[0] == b[i + w]);
        }
    }
}

/// Skipping white space from a boundary of valid UTF-8 stops at a boundary.
pub proof fn lemma_skip_boundary(b: Seq<u8>, i: int, hi: int)
    requires
        valid_utf8(b),
        0 <= i <= hi <= b.len(),
        boundary(b, i),
    ensures
        boundary(b, skip_ws(b, i, hi)),
    decreases hi - i,
{
    if i < hi && ws_width(b, i) > 0 && i + ws_width(b, i) <= hi {
        lemma_after_ws(b, i);
        lemma_skip_boundary(b, i + ws_width(b, i), hi);
    }
}

/// Trimming white space from the end back from a boundary stops at a
/// boundary.
pub proof fn lemma_trim_end_boundary(b: Seq<u8>, lo: int, j: int)
    requires
        0 <= lo <= j <= b.len(),
        boundary(b, j),
    ensures
        boundary(b, trim_end_pos(b, lo, j)),
    decreases j - lo,
{
    if j > lo && ws_width_before(b, lo, j) > 0 {
        let w = ws_width_before(b, lo, j);
        assert(!is_continuation_byte(b[j - w]));
        lemma_trim_end_boundary(b, lo, j - w);
    }
}

/// Both ends of a trimmed range of valid UTF-8 cut at boundaries.
pub proof fn lemma_trim_boundaries(b: Seq<u8>, lo: int, hi: int)
    requires
        valid_utf8(b),
        0 <= lo <= hi <= b.len(),
        boundary(b, lo),
        boundary(b, hi),
    ensures
        boundary(b, trim_range(b, lo, hi).0),
        boundary(b, trim_range(b, lo, hi).1),
        lo <= trim_range(b, lo, hi).0 <= trim_range(b, lo, hi).1 <= hi,
{
    lemma_skip_boundary(b, lo, hi);
    lemma_skip_ws_bounds(b, lo, hi);
    let s = skip_ws(b, lo, hi);
    lemma_trim_end_boundary(b, s, hi);
    lemma_trim_end_bounds(b, s, hi);
}

/// `[start, end)` of `b[lo..hi].trim()`.
pub open spec fn trim_range(b: Seq<u8>, lo: int, hi: int) -> (int, int) {
    let s = skip_ws(b, lo, hi);
    (s, trim_end_pos(b, s, hi))
}

pub fn trim_exec(b: &[u8], lo: usize, hi: usize) -> (r: (usize, usize))
    requires
        lo <= hi <= b@.len(),
    ensures
        r.0 == trim_range(b@, lo as int, hi as int).0,
        r.1 == trim_range(b@, lo as int, hi as int).1,
        lo <= r.0 <= r.1 <= hi,
{
    let s = skip_ws_exec(b, lo, hi);
    let e = trim_end_exec(b, s, hi);
    (s, e)
}

// ---------------------------------------------------------------------------
// Lines
// ---------------------------------------------------------------------------

/// Position of the first `\n` at or after `i`, or the length.
pub open spec fn nl_from(b: Seq<u8>, i: int) -> int
    decreases b.len() - i,
{
    if i < 0 {
        nl_from(b, 0)
    } else if i >= b.len() {
        b.len() as int
    } else if b[i] == 0x0a {
        i
    } else {
        nl_from(b, i + 1)
    }
}

pub proof fn lemma_nl_from(b: Seq<u8>, i: int)
    requires
        0 <= i <= b.len(),
    ensures
        i <= nl_from(b, i) <= b.len(),
        nl_from(b, i) < b.len() ==> b[nl_from(b, i)] == 0x0a,
        forall|k: int| i <= k < nl_from(b, i) ==> b[k] != 0x0a,
    decreases b.len() - i,
{
    if i < b.len() && b[i] != 0x0a {
        lemma_nl_from(b, i + 1);
    }
}

pub fn nl_from_exec(b: &[u8], i: usize) -> (r: usize)
    requires
        i <= b@.len(),
    ensures
        r == nl_from(b@, i as int),
        i <= r <= b@.len(),
        r < b@.len() ==> b@[r as int] == 0x0a,
        forall|k: int| i <= k < r ==> b@[k] != 0x0a,
{
    proof {
        lemma_nl_from(b@, i as int);
    }
    let mut k = i;
    while k < b.len()
        invariant
            i <= k <= b@.len(),
            nl_from(b@, k as int) == nl_from(b@, i as int),
            forall|m: int| i <= m < k ==> b@[m] != 0x0a,
        decreases b.len() - k,
    {
        if b[k] == 0x0a {
            return k;
        }
        k = k + 1;
    }
    k
}

/// The lines of `b[i..]` as `str::lines` gives them: pieces ended by `\n`
/// (which is dropped, and a `\r` just before it too); a last piece without
/// `\n` only when it is not empty.
pub open spec fn lines_from(b: Seq<u8>, i: int) -> Seq<(int, int)>
    decreases b.len() - i,
{
    if i < 0 || i >= b.len() {
        Seq::empty()
    } else {
        let e = nl_from(b, i);
        let end = if e < b.len() && e > i && b[e - 1] == 0x0d {
            e - 1
        } else {
            e
        };
        if e < b.len() && e + 1 > i {
            seq![(i, end)] + lines_from(b, e + 1)
        } else {
            seq![(i, end)]
        }
    }
}

/// Pieces of `b[i..]` between `\n` bytes, as `str::split('\n')` gives them
/// (always one more piece than there are `\n` bytes).
pub open spec fn segments_from(b: Seq<u8>, i: int) -> Seq<(int, int)>
    decreases b.len() + 1 - i,
{
    if i < 0 || i > b.len() {
        Seq::empty()
    } else {
        let e = nl_from(b, i);
        if e < b.len() && e + 1 > i {
            seq![(i, e)] + segments_from(b, e + 1)
        } else {
            seq![(i, e)]
        }
    }
}

/// End of the line that starts at `i`, without its `\n` and a `\r` just
/// before it, as `str::lines` cuts it.
pub open spec fn line_end(b: Seq<u8>, i: int) -> int {
    let e = nl_from(b, i);
    if e < b.len() && e > i && b[e - 1] == 0x0d {
        e - 1
    } else {
        e
    }
}

/// The number of lines of `b[i..]` (as `str::lines` cuts them) that start
/// with `p`.
pub open spec fn count_lines_with_prefix(b: Seq<u8>, i: int, p: Seq<u8>) -> int
    decreases b.len() - i,
{
    if i < 0 || i >= b.len() {
        0
    } else {
        let e = nl_from(b, i);
        (if starts_with(b.subrange(i, line_end(b, i)), p) {
            1int
        } else {
            0int
        }) + if e < b.len() && e + 1 > i {
            count_lines_with_prefix(b, e + 1, p)
        } else {
            0
        }
    }
}

proof fn lemma_count_lines_bound(b: Seq<u8>, i: int, p: Seq<u8>)
    requires
        0 <= i,
    ensures
        0 <= count_lines_with_prefix(b, i, p),
        i <= b.len() ==> count_lines_with_prefix(b, i, p) <= b.len() - i,
    decreases b.len() - i,
{
    if i < b.len() {
        lemma_nl_from(b, i);
        let e = nl_from(b, i);
        if e < b.len() {
            lemma_count_lines_bound(b, e + 1, p);
        }
    }
}

/// Counts the lines that start with `p`.
pub fn count_lines_with_prefix_exec(b: &[u8], p: &[u8]) -> (n: usize)
    ensures
        n == count_lines_with_prefix(b@, 0, p@),
{
    let mut n: usize = 0;
    let mut i: usize = 0;
    proof {
        lemma_count_lines_bound(b@, 0, p@);
    }
    while i < b.len()
        invariant
            i <= b@.len(),
            n + count_lines_with_prefix(b@, i as int, p@) == count_lines_with_prefix(b@, 0, p@),
            count_lines_with_prefix(b@, 0, p@) <= b@.len(),
            0 <= count_lines_with_prefix(b@, i as int, p@),
        decreases b@.len() - i,
    {
        let e = nl_from_exec(b, i);
        let end = line_content_end(b, i, e);
        let line = vstd::slice::slice_subrange(b, i, end);
        proof {
            if e < b@.len() {
                lemma_count_lines_bound(b@, e + 1, p@);
            }
        }
        if matches_at(line, p, 0) {
            n = n + 1;
        }
        if e < b.len() {
            i = e + 1;
        } else {
            i = b.len();
        }
    }
    n
}

/// Appends the decimal digits of `n`, so that valid UTF-8 stays valid.
pub fn push_decimal_valid(v: &mut Vec<u8>, n: u64)
    requires
        valid_utf8(old(v)@),
    ensures
        final(v)@ == old(v)@ + decimal(n as nat),
        valid_utf8(final(v)@),
{
    proof {
        lemma_decimal_ascii(n as nat);
        lemma_ascii_valid(decimal(n as nat));
        valid_utf8_concat(v@, decimal(n as nat));
    }
    push_decimal(v, n);
}

/// Appends the decimal form of a signed number, so that valid UTF-8 stays
/// valid.
pub fn push_signed_decimal_valid(v: &mut Vec<u8>, x: i64)
    requires
        valid_utf8(old(v)@),
    ensures
        final(v)@ == old(v)@ + signed_decimal(x as int),
        valid_utf8(final(v)@),
{
    proof {
        lemma_signed_decimal_ascii(x as int);
        lemma_ascii_valid(signed_decimal(x as int));
        valid_utf8_concat(v@, signed_decimal(x as int));
    }
    push_signed_decimal(v, x);
}

/// The end of the line starting at `i`, which is a boundary of valid UTF-8.
pub fn line_bounds(c: &[u8], i: usize) -> (r: (usize, usize))
    requires
        i < c@.len(),
        valid_utf8(c@),
    ensures
        r.0 == nl_from(c@, i as int),
        r.1 == line_end(c@, i as int),
        i <= r.1 <= r.0 <= c@.len(),
        r.0 < c@.len() ==> c@[r.0 as int] == 0x0a,
        boundary(c@, r.1 as int),
        r.0 < c@.len() ==> boundary(c@, r.0 + 1),
{
    let e = nl_from_exec(c, i);
    let end = line_content_end(c, i, e);
    proof {
        if e < c@.len() {
            lemma_after_ascii(c@, e as int);
        }
        if end < e {
            lemma_after_ascii(c@, end as int);
        }
    }
    (e, end)
}

/// End of the line holding byte `i` (after stripping `\r` as `lines` does).
pub fn line_content_end(b: &[u8], i: usize, e: usize) -> (end: usize)
    requires
        i <= e <= b@.len(),
    ensures
        end == (if e < b@.len() && e > i && b@[e - 1] == 0x0d {
            e - 1
        } else {
            e as int
        }),
{
    if e < b.len() && e > i && b[e - 1] == 0x0d {
        e - 1
    } else {
        e
    }
}

// ---------------------------------------------------------------------------
// Rewriting with ASCII patterns
// ---------------------------------------------------------------------------

/// `str::trim_start_matches`: `n` removed from the front as often as it is
/// there.
pub open spec fn trim_start_rep(b: Seq<u8>, n: Seq<u8>) -> Seq<u8>
    decreases b.len(),
{
    if n.len() > 0 && starts_with(b, n) {
        trim_start_rep(b.subrange(n.len() as int, b.len() as int), n)
    } else {
        b
    }
}

/// `str::trim_end_matches`: `n` removed from the back as often as it is
/// there.
pub open spec fn trim_end_rep(b: Seq<u8>, n: Seq<u8>) -> Seq<u8>
    decreases b.len(),
{
    if n.len() > 0 && ends_with(b, n) {
        trim_end_rep(b.subrange(0, b.len() - n.len()), n)
    } else {
        b
    }
}

/// `str::replace` on `b[i..]`: the occurrences of `pat`, found left to right
/// without overlap, replaced by `rep`.
pub open spec fn replace_from(b: Seq<u8>, i: int, pat: Seq<u8>, rep: Seq<u8>) -> Seq<u8>
    decreases b.len() - i,
{
    if i < 0 || i >= b.len() {
        Seq::empty()
    } else if pat.len() > 0 && occurs_at(b, pat, i) {
        rep + replace_from(b, i + pat.len(), pat, rep)
    } else {
        seq![b[i]] + replace_from(b, i + 1, pat, rep)
    }
}

/// `str::replace` on all of `b`.
pub open spec fn replace_all(b: Seq<u8>, pat: Seq<u8>, rep: Seq<u8>) -> Seq<u8> {
    replace_from(b, 0, pat, rep)
}

/// An ASCII pattern found in valid UTF-8 starts and ends at boundaries.
pub proof fn lemma_ascii_match_boundaries(b: Seq<u8>, n: Seq<u8>, i: int)
    requires
        valid_utf8(b),
        all_ascii(n),
        n.len() > 0,
        occurs_at(b, n, i),
    ensures
        boundary(b, i),
        boundary(b, i + n.len()),
{
    assert(b[i] == b.subrange(i, i + n.len())[0]);
    lemma_after_ascii(b, i);
    let j = i + n.len() - 1;
    assert(b[j] == b.subrange(i, i + n.len())[n.len() - 1]);
    lemma_after_ascii(b, j);
}

/// Removes an ASCII pattern from the front as often as it is there.
pub fn trim_start_matches_exec(b: &[u8], n: &[u8]) -> (r: Vec<u8>)
    requires
        valid_utf8(b@),
        all_ascii(n@),
    ensures
        r@ == trim_start_rep(b@, n@),
        valid_utf8(r@),
{
    let mut k: usize = 0;
    let blen = b.len();
    if n.len() > 0 {
        assert(b@.subrange(0, b@.len() as int) =~= b@);
        while matches_at(b, n, k)
            invariant
                valid_utf8(b@),
                all_ascii(n@),
                k <= b@.len(),
                blen == b@.len(),
                boundary(b@, k as int),
                n@.len() > 0,
                trim_start_rep(b@.subrange(k as int, b@.len() as int), n@) == trim_start_rep(b@, n@),
            decreases b@.len() - k,
        {
            proof {
                lemma_ascii_match_boundaries(b@, n@, k as int);
                let t = b@.subrange(k as int, b@.len() as int);
                assert(t.subrange(0, n@.len() as int) =~= b@.subrange(k as int, k + n@.len()));
                assert(t.subrange(n@.len() as int, t.len() as int) =~= b@.subrange(
                    k + n@.len(),
                    b@.len() as int,
                ));
            }
            k = k + n.len();
        }
        proof {
            let t = b@.subrange(k as int, b@.len() as int);
            if starts_with(t, n@) {
                assert(b@.subrange(k as int, k + n@.len()) =~= t.subrange(0, n@.len() as int));
            }
        }
    } else {
        assert(b@.subrange(0, b@.len() as int) =~= b@);
    }
    let mut out: Vec<u8> = Vec::new();
    proof {
        lemma_ascii_valid(out@);
    }
    push_span(&mut out, b, k, b.len());
    out
}

/// Removes an ASCII pattern from the back as often as it is there.
pub fn trim_end_matches_exec(b: &[u8], n: &[u8]) -> (r: Vec<u8>)
    requires
        valid_utf8(b@),
        all_ascii(n@),
    ensures
        r@ == trim_end_rep(b@, n@),
        valid_utf8(r@),
{
    let mut j: usize = b.len();
    if n.len() > 0 {
        assert(b@.subrange(0, b@.len() as int) =~= b@);
        while j >= n.len() && matches_at(b, n, j - n.len())
            invariant
                valid_utf8(b@),
                all_ascii(n@),
                j <= b@.len(),
                boundary(b@, j as int),
                n@.len() > 0,
                trim_end_rep(b@.subrange(0, j as int), n@) == trim_end_rep(b@, n@),
            decreases j,
        {
            proof {
                lemma_ascii_match_boundaries(b@, n@, j - n@.len());
                let t = b@.subrange(0, j as int);
                assert(t.subrange(t.len() - n@.len(), t.len() as int) =~= b@.subrange(
                    j - n@.len(),
                    j as int,
                ));
                assert(t.subrange(0, t.len() - n@.len()) =~= b@.subrange(0, j - n@.len()));
            }
            j = j - n.len();
        }
        proof {
            let t = b@.subrange(0, j as int);
            if ends_with(t, n@) {
                assert(t.subrange(t.len() - n@.len(), t.len() as int) =~= b@.subrange(
                    j - n@.len(),
                    j as int,
                ));
            }
        }
    } else {
        assert(b@.subrange(0, b@.len() as int) =~= b@);
    }
    let mut out: Vec<u8> = Vec::new();
    proof {
        lemma_ascii_valid(out@);
    }
    push_span(&mut out, b, 0, j);
    out
}

/// Replaces every occurrence (left to right, without overlap) of a non-empty
/// ASCII pattern by ASCII bytes.
pub fn replace_exec(b: &[u8], pat: &[u8], rep: &[u8]) -> (r: Vec<u8>)
    requires
        valid_utf8(b@),
        all_ascii(pat@),
        all_ascii(rep@),
        pat@.len() > 0,
    ensures
        r@ == replace_all(b@, pat@, rep@),
        valid_utf8(r@),
{
    let mut out: Vec<u8> = Vec::new();
    proof {
        lemma_ascii_valid(out@);
    }
    let mut s: usize = 0;
    let mut k: usize = 0;
    let blen = b.len();
    while k < b.len()
        invariant
            s <= k <= b@.len(),
            blen == b@.len(),
            boundary(b@, s as int),
            valid_utf8(b@),
            valid_utf8(out@),
            all_ascii(pat@),
            all_ascii(rep@),
            pat@.len() > 0,
            out@ + b@.subrange(s as int, k as int) + replace_from(b@, k as int, pat@, rep@)
                == replace_all(b@, pat@, rep@),
        decreases b@.len() - k,
    {
        let ghost before = out@ + b@.subrange(s as int, k as int);
        if matches_at(b, pat, k) {
            proof {
                lemma_ascii_match_boundaries(b@, pat@, k as int);
            }
            push_span(&mut out, b, s, k);
            push_ascii(&mut out, rep);
            proof {
                assert(b@.subrange(k + pat@.len(), k + pat@.len()) =~= Seq::<u8>::empty());
                assert(out@ + b@.subrange(k + pat@.len(), k + pat@.len()) + replace_from(
                    b@,
                    k + pat@.len(),
                    pat@,
                    rep@,
                ) =~= before + (rep@ + replace_from(b@, k + pat@.len(), pat@, rep@)));
            }
            k = k + pat.len();
            s = k;
        } else {
            proof {
                assert(b@.subrange(s as int, k + 1) =~= b@.subrange(s as int, k as int) + seq![b@[k as int]]);
                assert(before + (seq![b@[k as int]] + replace_from(b@, k + 1, pat@, rep@)) =~= out@
                    + b@.subrange(s as int, k + 1) + replace_from(b@, k + 1, pat@, rep@));
            }
            k = k + 1;
        }
    }
    proof {
        assert(replace_from(b@, k as int, pat@, rep@) =~= Seq::<u8>::empty());
        assert(boundary(b@, k as int));
    }
    push_span(&mut out, b, s, k);
    proof {
        assert(out@ =~= out@ + Seq::<u8>::empty());
    }
    out
}

// ---------------------------------------------------------------------------
// Decimal numbers
// ---------------------------------------------------------------------------

/// ASCII decimal digits of `n`, without leading zeros.
pub open spec fn decimal(n: nat) -> Seq<u8>
    decreases n,
{
    if n < 10 {
        seq![(48 + n) as u8]
    } else {
        decimal(n / 10) + seq![(48 + n % 10) as u8]
    }
}

/// ASCII decimal form of a signed number.
pub open spec fn signed_decimal(x: int) -> Seq<u8> {
    if x < 0 {
        seq![0x2du8] + decimal((-x) as nat)
    } else {
        decimal(x as nat)
    }
}

pub proof fn lemma_decimal_ascii(n: nat)
    ensures
        all_ascii(decimal(n)),
        decimal(n).len() >= 1,
    decreases n,
{
    if n >= 10 {
        lemma_decimal_ascii(n / 10);
    }
}

pub proof fn lemma_signed_decimal_ascii(x: int)
    ensures
        all_ascii(signed_decimal(x)),
{
    if x < 0 {
        lemma_decimal_ascii((-x) as nat);
        assert(all_ascii(seq![0x2du8] + decimal((-x) as nat)));
    } else {
        lemma_decimal_ascii(x as nat);
    }
}

/// Appends the decimal digits of `n`.
pub fn push_decimal(v: &mut Vec<u8>, n: u64)
    ensures
        final(v)@ == old(v)@ + decimal(n as nat),
    decreases n,
{
    if n < 10 {
        v.push((48 + n) as u8);
        assert(decimal(n as nat) =~= seq![(48 + n) as u8]);
    } else {
        push_decimal(v, n / 10);
        v.push((48 + n % 10) as u8);
        assert(decimal(n as nat) =~= decimal((n / 10) as nat) + seq![(48 + n % 10) as u8]);
    }
}

/// Appends the decimal form of a signed number.
pub fn push_signed_decimal(v: &mut Vec<u8>, x: i64)
    ensures
        final(v)@ == old(v)@ + signed_decimal(x as int),
{
    if x < 0 {
        v.push(0x2du8);
        let m: u64 = if x == i64::MIN {
            9223372036854775808u64
        } else {
            (-x) as u64
        };
        push_decimal(v, m);
        assert(old(v)@ + signed_decimal(x as int) =~= old(v)@ + seq![0x2du8] + decimal(m as nat));
    } else {
        push_decimal(v, x as u64);
    }
}

/// Numeric value of a sequence of ASCII digits.
pub open spec fn digits_value(s: Seq<u8>) -> int
    decreases s.len(),
{
    if s.len() == 0 {
        0
    } else {
        digits_value(s.drop_last()) * 10 + (s.last() - 48)
    }
}

pub open spec fn is_digit(c: u8) -> bool {
    48 <= c <= 57
}

pub open spec fn all_digits(s: Seq<u8>) -> bool {
    forall|k: int| 0 <= k < s.len() ==> is_digit(#[trigger] s[k])
}

/// `str::parse` for an unsigned integer type whose largest value is `max`:
/// an optional `+`, then at least one digit and nothing else, with a value not
/// above `max`.
pub open spec fn parse_unsigned(s: Seq<u8>, max: int) -> Option<int> {
    let d = if s.len() > 0 && s[0] == 0x2b {
        s.drop_first()
    } else {
        s
    };
    if d.len() > 0 && all_digits(d) && digits_value(d) <= max {
        Some(digits_value(d))
    } else {
        None
    }
}

/// `str::parse::<i64>`: an optional sign, then at least one digit and
/// nothing else, with a value in range.
pub open spec fn parse_i64(s: Seq<u8>) -> Option<int> {
    if s.len() > 0 && s[0] == 0x2d {
        let d = s.drop_first();
        if d.len() > 0 && all_digits(d) && digits_value(d) <= 9223372036854775808 {
            Some(-digits_value(d))
        } else {
            None
        }
    } else {
        parse_unsigned(s, 9223372036854775807)
    }
}

/// A parsed unsigned number is not negative.
pub proof fn lemma_parse_unsigned_nonneg(s: Seq<u8>, max: int)
    ensures
        parse_unsigned(s, max) matches Some(v) ==> v >= 0,
{
    let d = if s.len() > 0 && s[0] == 0x2b {
        s.drop_first()
    } else {
        s
    };
    if all_digits(d) {
        lemma_digits_value_nonneg(d);
    }
}

pub proof fn lemma_digits_value_nonneg(s: Seq<u8>)
    requires
        all_digits(s),
    ensures
        digits_value(s) >= 0,
    decreases s.len(),
{
    if s.len() > 0 {
        lemma_digits_value_nonneg(s.drop_last());
    }
}

/// Digits of `s[lo..hi]`, with overflow detection against `max`.
fn parse_digits(s: &[u8], lo: usize, hi: usize, max: u64) -> (r: Option<u64>)
    requires
        lo <= hi <= s@.len(),
    ensures
        ({
            let d = s@.subrange(lo as int, hi as int);
            match r {
                Some(v) => all_digits(d) && v == digits_value(d) && v <= max,
                None => !all_digits(d) || digits_value(d) > max,
            }
        }),
{
    let mut acc: u64 = 0;
    let mut k = lo;
    while k < hi
        invariant
            lo <= k <= hi <= s@.len(),
            all_digits(s@.subrange(lo as int, k as int)),
            acc == digits_value(s@.subrange(lo as int, k as int)),
            acc <= max,
        decreases hi - k,
    {
        let c = s[k];
        let ghost pre = s@.subrange(lo as int, k as int);
        let ghost next = s@.subrange(lo as int, k + 1);
        assert(next.drop_last() =~= pre);
        assert(next.last() == c);
        if c < 48 || c > 57 {
            proof {
                let d = s@.subrange(lo as int, hi as int);
                assert(d[k - lo] == c);
            }
            return None;
        }
        let dv = (c - 48) as u64;
        if dv > max || acc > (max - dv) / 10 {
            proof {
                let d = s@.subrange(lo as int, hi as int);
                assert(digits_value(next) > max) by (nonlinear_arith)
                    requires
                        digits_value(next) == acc * 10 + dv,
                        dv > max || acc > (max - dv) / 10,
                        dv <= 9,
                        acc >= 0,
                ;
                lemma_digits_prefix_monotone(d, k + 1 - lo);
                assert(d.subrange(0, k + 1 - lo) =~= next);
            }
            return None;
        }
        assert(acc * 10 + dv <= max) by (nonlinear_arith)
            requires
                acc <= (max - dv) / 10,
                dv <= max || acc == 0,
        ;
        acc = acc * 10 + dv;
        k = k + 1;
        assert(all_digits(next));
    }
    Some(acc)
}

pub proof fn lemma_digits_prefix_monotone(d: Seq<u8>, m: int)
    requires
        0 <= m <= d.len(),
    ensures
        all_digits(d) ==> digits_value(d) >= digits_value(d.subrange(0, m)),
    decreases d.len() - m,
{
    if m < d.len() && all_digits(d) {
        lemma_digits_prefix_monotone(d.drop_last(), m);
        assert(d.drop_last().subrange(0, m) =~= d.subrange(0, m));
        assert(all_digits(d.drop_last()));
        lemma_digits_value_nonneg(d.drop_last());
        assert(digits_value(d) == digits_value(d.drop_last()) * 10 + (d.last() - 48));
        assert(is_digit(d[d.len() - 1]));
    } else if m == d.len() {
        assert(d.subrange(0, m) =~= d);
    }
}

/// `s[lo..hi].parse::<u64>()`-style parse against `max`.
pub fn parse_unsigned_exec(s: &[u8], lo: usize, hi: usize, max: u64) -> (r: Option<u64>)
    requires
        lo <= hi <= s@.len(),
    ensures
        match r {
            Some(x) => parse_unsigned(s@.subrange(lo as int, hi as int), max as int) == Some(
                x as int,
            ),
            None => parse_unsigned(s@.subrange(lo as int, hi as int), max as int) is None,
        },
{
    let ghost t = s@.subrange(lo as int, hi as int);
    let start = if lo < hi && s[lo] == 0x2b {
        lo + 1
    } else {
        lo
    };
    proof {
        if lo < hi && s@[lo as int] == 0x2b {
            assert(t.drop_first() =~= s@.subrange(start as int, hi as int));
        } else {
            assert(t =~= s@.subrange(start as int, hi as int));
        }
    }
    if start == hi {
        return None;
    }
    parse_digits(s, start, hi, max)
}

/// `s[lo..hi].parse::<i64>()`.
pub fn parse_i64_exec(s: &[u8], lo: usize, hi: usize) -> (r: Option<i64>)
    requires
        lo <= hi <= s@.len(),
    ensures
        match r {
            Some(x) => parse_i64(s@.subrange(lo as int, hi as int)) == Some(x as int),
            None => parse_i64(s@.subrange(lo as int, hi as int)) is None,
        },
{
    let ghost t = s@.subrange(lo as int, hi as int);
    if lo < hi && s[lo] == 0x2d {
        assert(t.drop_first() =~= s@.subrange(lo + 1, hi as int));
        if lo + 1 == hi {
            return None;
        }
        match parse_digits(s, lo + 1, hi, 9223372036854775808u64) {
            Some(v) => {
                proof {
                    lemma_digits_value_nonneg(s@.subrange(lo + 1, hi as int));
                    assert(parse_i64(t) == Some(-(v as int)));
                }
                if v == 9223372036854775808u64 {
                    assert(i64::MIN as int == -(v as int));
                    Some(i64::MIN)
                } else {
                    let r = -(v as i64);
                    assert(r as int == -(v as int));
                    Some(r)
                }
            },
            None => None,
        }
    } else {
        assert(parse_i64(t) == parse_unsigned(t, 9223372036854775807));
        match parse_unsigned_exec(s, lo, hi, 9223372036854775807u64) {
            Some(v) => {
                let r = v as i64;
                Some(r)
            },
            None => None,
        }
    }
}

} // verus!
