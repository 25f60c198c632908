//! Spec-to-implementation traceability: finding spec references such as
//! `INV-STORE-001` in the comments of Rust source files.
use vstd::prelude::*;
use vstd::utf8::*;
use crate::text::{
    all_ascii, boundary, bytes_to_string, contains, contains_bytes, ends_with, is_digit,
    lemma_after_ascii, lemma_ascii_chars, lemma_ascii_valid, lemma_nl_from, matches_at, nl_from, occurs_at,
    push_ascii, push_span, replace_all, replace_exec, starts_with, trim_end_matches_exec,
    trim_end_rep, trim_range, trim_start_matches_exec, trim_start_rep, utf8,
};

verus! {

broadcast use vstd::utf8::group_utf8_lib;

// ---------------------------------------------------------------------------
// Spec reference pattern: (INV|ADR|NEG)-NAMESPACE-NNN
// ---------------------------------------------------------------------------

/// The bytes of `INV-`.
pub open spec fn inv_prefix() -> Seq<u8> {
    seq![0x49u8, 0x4e, 0x56, 0x2d]
}

/// The bytes of `ADR-`.
pub open spec fn adr_prefix() -> Seq<u8> {
    seq![0x41u8, 0x44, 0x52, 0x2d]
}

/// The bytes of `NEG-`.
pub open spec fn neg_prefix() -> Seq<u8> {
    seq![0x4eu8, 0x45, 0x47, 0x2d]
}

/// One of the three spec reference prefixes starts at `i`.
pub open spec fn ref_prefix_at(b: Seq<u8>, i: int) -> bool {
    occurs_at(b, inv_prefix(), i) || occurs_at(b, adr_prefix(), i) || occurs_at(b, neg_prefix(), i)
}

/// The first position at or after `i` where a spec reference prefix starts.
pub open spec fn first_ref_start(b: Seq<u8>, i: int) -> Option<int>
    decreases b.len() + 1 - i,
{
    if i < 0 || i > b.len() {
        None
    } else if ref_prefix_at(b, i) {
        Some(i)
    } else {
        first_ref_start(b, i + 1)
    }
}

pub open spec fn is_upper(c: u8) -> bool {
    0x41 <= c <= 0x5a
}

/// End of the run of ASCII upper-case letters starting at `i`.
pub open spec fn upper_end(b: Seq<u8>, i: int) -> int
    decreases b.len() - i,
{
    if 0 <= i < b.len() && is_upper(b[i]) {
        upper_end(b, i + 1)
    } else {
        i
    }
}

/// End of the run of ASCII digits starting at `i`.
pub open spec fn digit_end(b: Seq<u8>, i: int) -> int
    decreases b.len() - i,
{
    if 0 <= i < b.len() && is_digit(b[i]) {
        digit_end(b, i + 1)
    } else {
        i
    }
}

/// End of the spec reference that starts at `p`: a prefix, one or more
/// upper-case letters, a hyphen and one to four digits.
pub open spec fn parse_ref_end(b: Seq<u8>, p: int) -> Option<int> {
    if !ref_prefix_at(b, p) {
        None
    } else {
        let ne = upper_end(b, p + 4);
        if ne == p + 4 || ne >= b.len() || b[ne] != 0x2d {
            None
        } else {
            let de = digit_end(b, ne + 1);
            if de == ne + 1 || de > ne + 5 {
                None
            } else {
                Some(de)
            }
        }
    }
}

/// The spec reference at the start of `b`, if one is there.
pub open spec fn spec_parse_ref(b: Seq<u8>) -> Option<Seq<u8>> {
    match parse_ref_end(b, 0) {
        Some(e) => Some(b.subrange(0, e)),
        None => None,
    }
}

/// The spec references found scanning `b` from `i`: at each prefix, the
/// reference parsed there (if any), the scan going on three bytes later.
pub open spec fn refs_from(b: Seq<u8>, i: int) -> Seq<Seq<u8>>
    decreases b.len() + 1 - i,
{
    if i < 0 || i > b.len() {
        Seq::empty()
    } else if ref_prefix_at(b, i) {
        (match parse_ref_end(b, i) {
            Some(e) => seq![b.subrange(i, e)],
            None => Seq::empty(),
        }) + refs_from(b, i + 3)
    } else {
        refs_from(b, i + 1)
    }
}

/// The bytes of each string.
pub open spec fn strings_bytes(v: Seq<String>) -> Seq<Seq<u8>> {
    v.map_values(|s: String| utf8(s@))
}

/// The bytes of an optional string.
pub open spec fn opt_string_bytes(o: Option<String>) -> Option<Seq<u8>> {
    match o {
        Some(s) => Some(utf8(s@)),
        None => None,
    }
}

proof fn lemma_first_ref_start(b: Seq<u8>, i: int)
    requires
        0 <= i,
    ensures
        match first_ref_start(b, i) {
            Some(p) => i <= p && p + 4 <= b.len() && ref_prefix_at(b, p) && forall|k: int|
                i <= k < p ==> !#[trigger] ref_prefix_at(b, k),
            None => forall|k: int| i <= k ==> !#[trigger] ref_prefix_at(b, k),
        },
    decreases b.len() + 1 - i,
{
    if i <= b.len() && !ref_prefix_at(b, i) {
        lemma_first_ref_start(b, i + 1);
    }
    if i > b.len() {
        assert forall|k: int| i <= k implies !#[trigger] ref_prefix_at(b, k) by {}
    }
}

proof fn lemma_upper_end(b: Seq<u8>, i: int)
    requires
        0 <= i <= b.len(),
    ensures
        i <= upper_end(b, i) <= b.len(),
        forall|k: int| i <= k < upper_end(b, i) ==> is_upper(#[trigger] b[k]),
        upper_end(b, i) < b.len() ==> !is_upper(b[upper_end(b, i)]),
    decreases b.len() - i,
{
    if i < b.len() && is_upper(b[i]) {
        lemma_upper_end(b, i + 1);
    }
}

proof fn lemma_digit_end(b: Seq<u8>, i: int)
    requires
        0 <= i <= b.len(),
    ensures
        i <= digit_end(b, i) <= b.len(),
        forall|k: int| i <= k < digit_end(b, i) ==> is_digit(#[trigger] b[k]),
        digit_end(b, i) < b.len() ==> !is_digit(b[digit_end(b, i)]),
    decreases b.len() - i,
{
    if i < b.len() && is_digit(b[i]) {
        lemma_digit_end(b, i + 1);
    }
}

/// A parsed reference is ASCII and lies within the text.
proof fn lemma_parse_ref_ascii(b: Seq<u8>, p: int)
    requires
        0 <= p <= b.len(),
        parse_ref_end(b, p) is Some,
    ensures
        p + 7 <= parse_ref_end(b, p)->0 <= b.len(),
        all_ascii(b.subrange(p, parse_ref_end(b, p)->0)),
{
    let e = parse_ref_end(b, p)->0;
    lemma_upper_end(b, p + 4);
    let ne = upper_end(b, p + 4);
    lemma_digit_end(b, ne + 1);
    let s = b.subrange(p, e);
    assert forall|k: int| 0 <= k < s.len() implies #[trigger] s[k] < 0x80 by {
        assert(s[k] == b[p + k]);
        if k < 4 {
            if occurs_at(b, inv_prefix(), p) {
                assert(b.subrange(p, p + 4)[k] == b[p + k]);
            } else if occurs_at(b, adr_prefix(), p) {
                assert(b.subrange(p, p + 4)[k] == b[p + k]);
            } else {
                assert(b.subrange(p, p + 4)[k] == b[p + k]);
            }
        } else if p + k < ne {
            assert(is_upper(b[p + k]));
        } else if p + k == ne {
        } else {
            assert(is_digit(b[p + k]));
        }
    }
}

// ---------------------------------------------------------------------------
// Executable scanning
// ---------------------------------------------------------------------------

/// Whether a spec reference prefix starts at `i`.
pub fn prefix_at_exec(b: &[u8], i: usize) -> (r: bool)
    ensures
        r == ref_prefix_at(b@, i as int),
{
    let inv: [u8; 4] = [0x49u8, 0x4e, 0x56, 0x2d];
    let adr: [u8; 4] = [0x41u8, 0x44, 0x52, 0x2d];
    let neg: [u8; 4] = [0x4eu8, 0x45, 0x47, 0x2d];
    assert(inv@ =~= inv_prefix());
    assert(adr@ =~= adr_prefix());
    assert(neg@ =~= neg_prefix());
    matches_at(b, inv.as_slice(), i) || matches_at(b, adr.as_slice(), i) || matches_at(
        b,
        neg.as_slice(),
        i,
    )
}

fn first_ref_start_exec(b: &[u8], from: usize) -> (r: Option<usize>)
    requires
        from <= b@.len(),
    ensures
        match r {
            Some(p) => first_ref_start(b@, from as int) == Some(p as int),
            None => first_ref_start(b@, from as int) is None,
        },
{
    let mut k = from;
    while k < b.len()
        invariant
            from <= k <= b@.len(),
            first_ref_start(b@, k as int) == first_ref_start(b@, from as int),
        decreases b@.len() - k,
    {
        if prefix_at_exec(b, k) {
            return Some(k);
        }
        k = k + 1;
    }
    if prefix_at_exec(b, k) {
        Some(k)
    } else {
        assert(first_ref_start(b@, k + 1) is None);
        None
    }
}

/// Find the start of a potential spec ref (`INV-`, `ADR-`, `NEG-`): the
/// earliest byte offset where one of the prefixes occurs.
pub fn find_spec_ref_start(s: &str) -> (r: Option<usize>)
    ensures
        match r {
            Some(p) => first_ref_start(utf8(s@), 0) == Some(p as int),
            None => first_ref_start(utf8(s@), 0) is None,
        },
{
    first_ref_start_exec(s.as_bytes(), 0)
}

fn upper_end_exec(b: &[u8], i: usize) -> (r: usize)
    requires
        i <= b@.len(),
    ensures
        r == upper_end(b@, i as int),
{
    let mut k = i;
    while k < b.len() && 0x41 <= b[k] && b[k] <= 0x5a
        invariant
            i <= k <= b@.len(),
            upper_end(b@, k as int) == upper_end(b@, i as int),
        decreases b@.len() - k,
    {
        k = k + 1;
    }
    k
}

fn digit_end_exec(b: &[u8], i: usize) -> (r: usize)
    requires
        i <= b@.len(),
    ensures
        r == digit_end(b@, i as int),
{
    let mut k = i;
    while k < b.len() && 0x30 <= b[k] && b[k] <= 0x39
        invariant
            i <= k <= b@.len(),
            digit_end(b@, k as int) == digit_end(b@, i as int),
        decreases b@.len() - k,
    {
        k = k + 1;
    }
    k
}

/// End of the spec reference starting at `p`, if one does.
fn parse_ref_end_exec(b: &[u8], p: usize) -> (r: Option<usize>)
    requires
        p <= b@.len(),
    ensures
        match r {
            Some(e) => parse_ref_end(b@, p as int) == Some(e as int),
            None => parse_ref_end(b@, p as int) is None,
        },
{
    let blen = b.len();
    if !prefix_at_exec(b, p) {
        return None;
    }
    assert(p + 4 <= b@.len()) by {
        assert(inv_prefix().len() == 4 && adr_prefix().len() == 4 && neg_prefix().len() == 4);
    }
    let ne = upper_end_exec(b, p + 4);
    if ne == p + 4 || ne >= b.len() || b[ne] != 0x2d {
        return None;
    }
    proof {
        lemma_upper_end(b@, p + 4);
    }
    let de = digit_end_exec(b, ne + 1);
    proof {
        lemma_digit_end(b@, ne + 1);
    }
    if de == ne + 1 || de - (ne + 1) > 4 {
        return None;
    }
    Some(de)
}

/// The reference `b[p..e]` as a string.
fn ref_string(b: &[u8], p: usize, e: usize) -> (s: String)
    requires
        p <= b@.len(),
        parse_ref_end(b@, p as int) == Some(e as int),
    ensures
        utf8(s@) == b@.subrange(p as int, e as int),
{
    proof {
        lemma_parse_ref_ascii(b@, p as int);
        lemma_ascii_valid(b@.subrange(p as int, e as int));
    }
    let mut v: Vec<u8> = Vec::new();
    crate::text::push_range(&mut v, b, p, e);
    assert(v@ =~= b@.subrange(p as int, e as int));
    bytes_to_string(v)
}

/// Parse a spec ref at the start of `s`: `(INV|ADR|NEG)-NAMESPACE-NNN`, where
/// NAMESPACE is one or more upper-case letters and NNN is one to four digits.
pub fn parse_spec_ref(s: &str) -> (r: Option<String>)
    ensures
        opt_string_bytes(r) == spec_parse_ref(utf8(s@)),
{
    let b = s.as_bytes();
    match parse_ref_end_exec(b, 0) {
        Some(e) => {
            let t = ref_string(b, 0, e);
            Some(t)
        },
        None => None,
    }
}

/// The spec references in a line, in order.
pub fn extract_spec_refs(line: &str) -> (refs: Vec<String>)
    ensures
        strings_bytes(refs@) == refs_from(utf8(line@), 0),
{
    extract_refs_bytes(line.as_bytes())
}

/// The spec references in the bytes of a line, in order.
fn extract_refs_bytes(b: &[u8]) -> (refs: Vec<String>)
    ensures
        strings_bytes(refs@) == refs_from(b@, 0),
{
    let blen = b.len();
    let ghost bs = b@;
    let mut refs: Vec<String> = Vec::new();
    let mut i: usize = 0;
    loop
        invariant
            bs == b@,
            blen == bs.len(),
            i <= bs.len(),
            strings_bytes(refs@) + refs_from(bs, i as int) == refs_from(bs, 0),
        ensures
            strings_bytes(refs@) == refs_from(bs, 0),
        decreases bs.len() + 1 - i,
    {
        match first_ref_start_exec(b, i) {
            None => {
                proof {
                    lemma_first_ref_start(bs, i as int);
                    lemma_refs_skip(bs, i as int, bs.len() + 1int);
                    assert(refs_from(bs, bs.len() + 1int) =~= Seq::<Seq<u8>>::empty());
                    assert(strings_bytes(refs@) + refs_from(bs, i as int) =~= strings_bytes(refs@));
                }
                break;
            },
            Some(p) => {
                proof {
                    lemma_first_ref_start(bs, i as int);
                    lemma_refs_skip(bs, i as int, p as int);
                    assert(inv_prefix().len() == 4 && adr_prefix().len() == 4 && neg_prefix().len()
                        == 4);
                }
                let ghost before = strings_bytes(refs@);
                match parse_ref_end_exec(b, p) {
                    Some(e) => {
                        proof {
                            lemma_parse_ref_ascii(bs, p as int);
                        }
                        let t = ref_string(b, p, e);
                        refs.push(t);
                        proof {
                            assert(strings_bytes(refs@) =~= before + seq![bs.subrange(p as int, e as int)]);
                            assert(refs_from(bs, p as int) == seq![bs.subrange(p as int, e as int)]
                                + refs_from(bs, p + 3));
                        }
                    },
                    None => {
                        assert(refs_from(bs, p as int) =~= refs_from(bs, p + 3));
                    },
                }
                i = p + 3;
            },
        }
    }
    refs
}

/// Positions without a prefix add nothing to the scan.
proof fn lemma_refs_skip(b: Seq<u8>, i: int, j: int)
    requires
        0 <= i <= j,
        forall|k: int| i <= k < j ==> !#[trigger] ref_prefix_at(b, k),
    ensures
        refs_from(b, i) == refs_from(b, j),
    decreases j - i,
{
    if i < j {
        lemma_refs_skip(b, i + 1, j);
        if i > b.len() {
            assert(refs_from(b, i) =~= Seq::<Seq<u8>>::empty());
            if i + 1 <= j {
                assert(refs_from(b, i + 1) =~= Seq::<Seq<u8>>::empty());
            }
        }
    }
}

// ---------------------------------------------------------------------------
// Comment lines, test files and module paths
// ---------------------------------------------------------------------------

/// A trimmed line is a Rust comment: it starts with `//` (which covers `///`
/// and `//!`).
pub fn is_comment_line(trimmed: &str) -> (r: bool)
    ensures
        r == starts_with(utf8(trimmed@), utf8("//"@)),
{
    matches_at(trimmed.as_bytes(), "//".as_bytes(), 0)
}

fn ends_with_exec(h: &[u8], n: &[u8]) -> (r: bool)
    ensures
        r == ends_with(h@, n@),
{
    n.len() <= h.len() && matches_at(h, n, h.len() - n.len())
}

/// A path is a test file: it lies under a `tests` directory or its name ends
/// in `_test.rs` or `_tests.rs`.
pub open spec fn spec_is_test_file(b: Seq<u8>) -> bool {
    contains(b, utf8("/tests/"@)) || ends_with(b, utf8("_test.rs"@)) || ends_with(
        b,
        utf8("_tests.rs"@),
    )
}

/// Check if a file is a test file.
pub fn is_test_file(relative: &str) -> (r: bool)
    ensures
        r == spec_is_test_file(utf8(relative@)),
{
    let b = relative.as_bytes();
    contains_bytes(b, "/tests/".as_bytes()) || ends_with_exec(b, "_test.rs".as_bytes())
        || ends_with_exec(b, "_tests.rs".as_bytes())
}

/// What a byte becomes in a module path: `/` becomes `::` and `-` becomes
/// `_`.
pub open spec fn sep_piece(c: u8) -> Seq<u8> {
    if c == 0x2f {
        seq![0x3au8, 0x3a]
    } else if c == 0x2d {
        seq![0x5fu8]
    } else {
        seq![c]
    }
}

/// `b` with every `/` made `::` and every `-` made `_`.
pub open spec fn map_seps(b: Seq<u8>) -> Seq<u8>
    decreases b.len(),
{
    if b.len() == 0 {
        Seq::empty()
    } else {
        map_seps(b.drop_last()) + sep_piece(b.last())
    }
}

/// The module path of a relative file path: a leading `crates/` dropped,
/// `/` made `::`, `-` made `_`, `::src::` made `::`, and a trailing `.rs`,
/// then `::mod`, then `::lib` dropped.
pub open spec fn spec_module_path(b: Seq<u8>) -> Seq<u8> {
    let p = map_seps(trim_start_rep(b, utf8("crates/"@)));
    let p = replace_all(p, utf8("::src::"@), utf8("::"@));
    trim_end_rep(trim_end_rep(trim_end_rep(p, utf8(".rs"@)), utf8("::mod"@)), utf8("::lib"@))
}

fn map_seps_exec(b: &[u8]) -> (r: Vec<u8>)
    requires
        valid_utf8(b@),
    ensures
        r@ == map_seps(b@),
        valid_utf8(r@),
{
    let mut out: Vec<u8> = Vec::new();
    proof {
        lemma_ascii_valid(out@);
    }
    let mut s: usize = 0;
    let mut k: usize = 0;
    while k < b.len()
        invariant
            s <= k <= b@.len(),
            boundary(b@, s as int),
            valid_utf8(b@),
            valid_utf8(out@),
            out@ + b@.subrange(s as int, k as int) == map_seps(b@.subrange(0, k as int)),
        decreases b@.len() - k,
    {
        let c = b[k];
        let ghost pre = b@.subrange(0, k as int);
        proof {
            let nx = b@.subrange(0, k + 1);
            assert(nx.drop_last() =~= pre);
            assert(nx.last() == c);
        }
        if c == 0x2f || c == 0x2d {
            proof {
                lemma_after_ascii(b@, k as int);
            }
            push_span(&mut out, b, s, k);
            if c == 0x2f {
                let piece: [u8; 2] = [0x3au8, 0x3a];
                assert(piece@ =~= sep_piece(c));
                push_ascii(&mut out, piece.as_slice());
            } else {
                let piece: [u8; 1] = [0x5fu8];
                assert(piece@ =~= sep_piece(c));
                push_ascii(&mut out, piece.as_slice());
            }
            k = k + 1;
            s = k;
            assert(b@.subrange(s as int, k as int) =~= Seq::<u8>::empty());
            assert(out@ + b@.subrange(s as int, k as int) =~= out@);
        } else {
            assert(sep_piece(c) == seq![c]);
            assert(b@.subrange(s as int, k + 1) =~= b@.subrange(s as int, k as int) + seq![c]);
            k = k + 1;
        }
    }
    assert(b@.subrange(0, b@.len() as int) =~= b@);
    push_span(&mut out, b, s, k);
    out
}

/// Derive a module path from a relative file path:
/// `crates/braid-kernel/src/store.rs` gives `braid_kernel::store`.
pub fn module_from_path(relative: &str) -> (r: String)
    ensures
        utf8(r@) == spec_module_path(utf8(relative@)),
{
    let b = relative.as_bytes();
    let crates = "crates/".as_bytes();
    let src_sep = "::src::".as_bytes();
    let sep = "::".as_bytes();
    let rs = ".rs".as_bytes();
    let md = "::mod".as_bytes();
    let lib = "::lib".as_bytes();
    proof {
        reveal_strlit("crates/");
        reveal_strlit("::src::");
        reveal_strlit("::");
        reveal_strlit(".rs");
        reveal_strlit("::mod");
        reveal_strlit("::lib");
        lemma_ascii_chars("crates/"@);
        lemma_ascii_chars("::src::"@);
        lemma_ascii_chars("::"@);
        lemma_ascii_chars(".rs"@);
        lemma_ascii_chars("::mod"@);
        lemma_ascii_chars("::lib"@);
    }
    let p = trim_start_matches_exec(b, crates);
    let p = map_seps_exec(p.as_slice());
    let p = replace_exec(p.as_slice(), src_sep, sep);
    let p = trim_end_matches_exec(p.as_slice(), rs);
    let p = trim_end_matches_exec(p.as_slice(), md);
    let p = trim_end_matches_exec(p.as_slice(), lib);
    bytes_to_string(p)
}

// ---------------------------------------------------------------------------
// Scanning a source file
// ---------------------------------------------------------------------------

/// A traced reference found in a source file.
#[derive(Clone, Debug)]
pub struct TraceRef {
    /// The spec ref (e.g., "INV-STORE-001").
    pub spec_ref: String,
    /// Source file path (relative to source directory).
    pub file: String,
    /// Whether this was found in a test file.
    pub is_test: bool,
}

/// The bytes of `///`.
pub open spec fn doc_outer() -> Seq<u8> {
    seq![0x2fu8, 0x2f, 0x2f]
}

/// The bytes of `//!`.
pub open spec fn doc_inner() -> Seq<u8> {
    seq![0x2fu8, 0x2f, 0x21]
}

/// The bytes of `//`.
pub open spec fn comment_start() -> Seq<u8> {
    seq![0x2fu8, 0x2f]
}

/// The bytes of a code fence, three backticks.
pub open spec fn backticks() -> Seq<u8> {
    seq![0x60u8, 0x60, 0x60]
}

/// A trimmed doc-comment line holding a code fence toggles a doc code block.
pub open spec fn toggles_block(t: Seq<u8>) -> bool {
    (starts_with(t, doc_outer()) || starts_with(t, doc_inner())) && contains(t, backticks())
}

/// The spec references of the comment lines of `b[i..]` (one line after
/// another, as `str::lines` cuts them, each trimmed), skipping doc-comment
/// code blocks; `in_code` tells whether such a block is open at `i`.
pub open spec fn scan_from(b: Seq<u8>, i: int, in_code: bool) -> Seq<Seq<u8>>
    decreases b.len() - i,
{
    if i < 0 || i >= b.len() {
        Seq::empty()
    } else {
        let e = nl_from(b, i);
        let end = if e < b.len() && e > i && b[e - 1] == 0x0d {
            e - 1
        } else {
            e
        };
        let (ts, te) = trim_range(b, i, end);
        let t = b.subrange(ts, te);
        let toggle = toggles_block(t);
        let here: Seq<Seq<u8>> = if toggle || in_code || !starts_with(t, comment_start()) {
            Seq::empty()
        } else {
            refs_from(t, 0)
        };
        let next_code = if toggle {
            !in_code
        } else {
            in_code
        };
        if e < b.len() && e + 1 > i {
            here + scan_from(b, e + 1, next_code)
        } else {
            here
        }
    }
}

/// The spec reference names of found references.
pub open spec fn ref_names(v: Seq<TraceRef>) -> Seq<Seq<u8>> {
    v.map_values(|r: TraceRef| utf8(r.spec_ref@))
}

fn lit_at_start(t: &[u8], lit: &[u8]) -> (r: bool)
    ensures
        r == starts_with(t@, lit@),
{
    matches_at(t, lit, 0)
}

/// Scan the content of a Rust source file for spec references in comments.
///
/// Only extracts references from comment lines (`//`, `///`, `//!`), and
/// skips references inside code blocks of doc comments.  Each reference
/// carries the file's relative path and whether it is a test file.
pub fn scan_content(content: &str, relative: &str) -> (refs: Vec<TraceRef>)
    ensures
        ref_names(refs@) == scan_from(utf8(content@), 0, false),
        forall|k: int|
            0 <= k < refs@.len() ==> (#[trigger] refs@[k]).file@ == relative@ && refs@[k].is_test
                == spec_is_test_file(utf8(relative@)),
{
    let b = content.as_bytes();
    let ghost bs = b@;
    let blen = b.len();
    let is_test = is_test_file(relative);
    let outer: [u8; 3] = [0x2fu8, 0x2f, 0x2f];
    let inner: [u8; 3] = [0x2fu8, 0x2f, 0x21];
    let slashes: [u8; 2] = [0x2fu8, 0x2f];
    let ticks: [u8; 3] = [0x60u8, 0x60, 0x60];
    assert(outer@ =~= doc_outer());
    assert(inner@ =~= doc_inner());
    assert(slashes@ =~= comment_start());
    assert(ticks@ =~= backticks());
    let mut refs: Vec<TraceRef> = Vec::new();
    let mut in_code = false;
    let mut i: usize = 0;
    assert(ref_names(refs@) =~= Seq::<Seq<u8>>::empty());
    while i < b.len()
        invariant
            bs == b@,
            blen == bs.len(),
            i <= bs.len(),
            is_test == spec_is_test_file(utf8(relative@)),
            outer@ == doc_outer(),
            inner@ == doc_inner(),
            slashes@ == comment_start(),
            ticks@ == backticks(),
            ref_names(refs@) + scan_from(bs, i as int, in_code) == scan_from(bs, 0, false),
            forall|k: int|
                0 <= k < refs@.len() ==> (#[trigger] refs@[k]).file@ == relative@
                    && refs@[k].is_test == is_test,
        decreases bs.len() - i,
    {
        let e = crate::text::nl_from_exec(b, i);
        let end = crate::text::line_content_end(b, i, e);
        let (ts, te) = crate::text::trim_exec(b, i, end);
        let t = vstd::slice::slice_subrange(b, ts, te);
        let toggle = (lit_at_start(t, outer.as_slice()) || lit_at_start(t, inner.as_slice()))
            && contains_bytes(t, ticks.as_slice());
        let ghost old_names = ref_names(refs@);
        let ghost rest = scan_from(bs, i as int, in_code);
        let ghost next_code = if toggle {
            !in_code
        } else {
            in_code
        };
        let ghost here: Seq<Seq<u8>> = if toggle || in_code || !starts_with(t@, comment_start()) {
            Seq::empty()
        } else {
            refs_from(t@, 0)
        };
        assert(rest == here + (if e < bs.len() {
            scan_from(bs, e + 1, next_code)
        } else {
            Seq::empty()
        }));
        if !toggle && !in_code && lit_at_start(t, slashes.as_slice()) {
            let found = extract_refs_bytes(t);
            let mut k: usize = 0;
            while k < found.len()
                invariant
                    k <= found@.len(),
                    ref_names(refs@) == old_names + strings_bytes(found@).subrange(0, k as int),
                    forall|j: int|
                        0 <= j < refs@.len() ==> (#[trigger] refs@[j]).file@ == relative@
                            && refs@[j].is_test == is_test,
                decreases found@.len() - k,
            {
                let ghost before = refs@;
                let r = TraceRef { spec_ref: found[k].clone(), file: relative.to_owned(), is_test };
                refs.push(r);
                proof {
                    assert(ref_names(refs@) =~= ref_names(before).push(utf8(found@[k as int]@)));
                    assert(strings_bytes(found@).subrange(0, k + 1) =~= strings_bytes(found@).subrange(
                        0,
                        k as int,
                    ).push(utf8(found@[k as int]@)));
                }
                k = k + 1;
            }
            assert(strings_bytes(found@).subrange(0, found@.len() as int) =~= strings_bytes(found@));
            assert(ref_names(refs@) == old_names + here);
        } else {
            assert(here =~= Seq::<Seq<u8>>::empty());
            assert(ref_names(refs@) =~= old_names + here);
        }
        if toggle {
            in_code = !in_code;
        }
        if e < b.len() {
            i = e + 1;
            assert(ref_names(refs@) + scan_from(bs, i as int, in_code) =~= old_names + rest);
        } else {
            i = b.len();
            assert(scan_from(bs, i as int, in_code) =~= Seq::<Seq<u8>>::empty());
            assert(ref_names(refs@) + scan_from(bs, i as int, in_code) =~= old_names + rest);
        }
    }
    assert(scan_from(bs, i as int, in_code) =~= Seq::<Seq<u8>>::empty());
    assert(ref_names(refs@) =~= ref_names(refs@) + scan_from(bs, i as int, in_code));
    refs
}

/// A spec reference prefix is four ASCII bytes ending with a hyphen.
pub proof fn lemma_prefix_len(b: Seq<u8>, p: int)
    requires
        ref_prefix_at(b, p),
    ensures
        0 <= p,
        p + 4 <= b.len(),
        forall|k: int| p <= k < p + 4 ==> b[k] < 0x80,
        b[p + 3] == 0x2d,
{
    assert(inv_prefix().len() == 4 && adr_prefix().len() == 4 && neg_prefix().len() == 4);
    assert forall|k: int| p <= k < p + 4 implies b[k] < 0x80 by {
        assert(b.subrange(p, p + 4)[k - p] == b[k]);
    }
    assert(b.subrange(p, p + 4)[3] == b[p + 3]);
}

// ---------------------------------------------------------------------------
// Laws
// ---------------------------------------------------------------------------

/// The trimmed text of the line starting at `i` (without its `\n`, nor a
/// `\r` before it).
pub open spec fn line_at(b: Seq<u8>, i: int) -> Seq<u8> {
    let e = nl_from(b, i);
    let end = if e < b.len() && e > i && b[e - 1] == 0x0d {
        e - 1
    } else {
        e
    };
    let (ts, te) = trim_range(b, i, end);
    b.subrange(ts, te)
}

/// A line is a doc-comment code fence: it starts with `///` or `//!` and
/// holds three backticks.
pub open spec fn is_doc_fence(t: Seq<u8>) -> bool {
    (starts_with(t, seq![0x2fu8, 0x2f, 0x2f]) || starts_with(t, seq![0x2fu8, 0x2f, 0x21]))
        && contains(t, seq![0x60u8, 0x60, 0x60])
}

/// What the scan of `b` from the line after the one at `i` gives, with the
/// code block state `in_code` (nothing when that line is the last).
pub open spec fn scan_after_line(b: Seq<u8>, i: int, in_code: bool) -> Seq<Seq<u8>> {
    if nl_from(b, i) < b.len() {
        scan_from(b, nl_from(b, i) + 1, in_code)
    } else {
        Seq::empty()
    }
}

/// A doc-comment code fence line (`///` or `//!` with three backticks)
/// reports no reference and opens a doc code block when none is open, or
/// closes the open one.
pub proof fn law_doc_fence_toggles_block(b: Seq<u8>, i: int, in_code: bool)
    requires
        0 <= i < b.len(),
        is_doc_fence(line_at(b, i)),
    ensures
        scan_from(b, i, in_code) == scan_after_line(b, i, !in_code),
{
    lemma_nl_from(b, i);
    assert(doc_outer() == seq![0x2fu8, 0x2f, 0x2f]);
    assert(doc_inner() == seq![0x2fu8, 0x2f, 0x21]);
    assert(backticks() == seq![0x60u8, 0x60, 0x60]);
    assert(toggles_block(line_at(b, i)));
    let here: Seq<Seq<u8>> = Seq::empty();
    if nl_from(b, i) < b.len() {
        assert(here + scan_from(b, nl_from(b, i) + 1, !in_code) =~= scan_from(b, nl_from(b, i) + 1, !in_code));
    }
}

/// Inside an open doc code block, a line that is no code fence reports no
/// reference and leaves the block open: references in doc-comment code
/// examples are never traced.
pub proof fn law_no_refs_inside_doc_block(b: Seq<u8>, i: int)
    requires
        0 <= i < b.len(),
        !is_doc_fence(line_at(b, i)),
    ensures
        scan_from(b, i, true) == scan_after_line(b, i, true),
{
    lemma_nl_from(b, i);
    assert(doc_outer() == seq![0x2fu8, 0x2f, 0x2f]);
    assert(doc_inner() == seq![0x2fu8, 0x2f, 0x21]);
    assert(backticks() == seq![0x60u8, 0x60, 0x60]);
    assert(!toggles_block(line_at(b, i)));
    let here: Seq<Seq<u8>> = Seq::empty();
    if nl_from(b, i) < b.len() {
        assert(here + scan_from(b, nl_from(b, i) + 1, true) =~= scan_from(b, nl_from(b, i) + 1, true));
    }
}

/// Outside doc code blocks, a line that is not a comment (its trimmed text
/// does not start with `//`) reports no reference: only comments are
/// traced.
pub proof fn law_only_comments_are_traced(b: Seq<u8>, i: int)
    requires
        0 <= i < b.len(),
        !starts_with(line_at(b, i), seq![0x2fu8, 0x2f]),
    ensures
        scan_from(b, i, false) == scan_after_line(b, i, false),
{
    lemma_nl_from(b, i);
    assert(comment_start() == seq![0x2fu8, 0x2f]);
    assert(!toggles_block(line_at(b, i))) by {
        if starts_with(line_at(b, i), doc_outer()) || starts_with(line_at(b, i), doc_inner()) {
            assert(line_at(b, i).subrange(0, 2) =~= seq![0x2fu8, 0x2f]);
        }
    }
    let here: Seq<Seq<u8>> = Seq::empty();
    if nl_from(b, i) < b.len() {
        assert(here + scan_from(b, nl_from(b, i) + 1, false) =~= scan_from(b, nl_from(b, i) + 1, false));
    }
}

/// Outside doc code blocks, a comment line that is no code fence reports
/// the references found in it (as `extract_spec_refs` finds them), before
/// those of the following lines.
pub proof fn law_comment_refs_are_traced(b: Seq<u8>, i: int)
    requires
        0 <= i < b.len(),
        starts_with(line_at(b, i), seq![0x2fu8, 0x2f]),
        !is_doc_fence(line_at(b, i)),
    ensures
        scan_from(b, i, false) == refs_from(line_at(b, i), 0) + scan_after_line(b, i, false),
{
    lemma_nl_from(b, i);
    assert(comment_start() == seq![0x2fu8, 0x2f]);
    assert(doc_outer() == seq![0x2fu8, 0x2f, 0x2f]);
    assert(doc_inner() == seq![0x2fu8, 0x2f, 0x21]);
    assert(backticks() == seq![0x60u8, 0x60, 0x60]);
    assert(!toggles_block(line_at(b, i)));
    if nl_from(b, i) >= b.len() {
        assert(refs_from(line_at(b, i), 0) + Seq::<Seq<u8>>::empty() =~= refs_from(line_at(b, i), 0));
    }
}

} // verus!
