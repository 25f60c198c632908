//! Spec namespaces: the namespace part of a spec id such as `INV-STORE-001`,
//! the name of a namespace keyword, and case-insensitive namespace matching.
use vstd::prelude::*;
use vstd::utf8::*;
use crate::text::{
    lemma_after_ascii, lemma_boundary, starts_with, utf8,
};
use crate::trace::{
    lemma_prefix_len, ref_prefix_at,
};

verus! {

broadcast use vstd::utf8::group_utf8_lib;

/// `str::to_uppercase` of a string.
pub uninterp spec fn upper(s: Seq<char>) -> Seq<char>;

/// Upper-cases a string.
///
/// Calls `str::to_uppercase` (Unicode upper case); the result is named
/// `upper` of the string.
#[verifier::external_body]
fn to_upper(s: &str) -> (r: String)
    ensures
        r@ == upper(s@),
{
    s.to_uppercase()
}

/// The last position of byte `c` in `b[..j]`, if any.
pub open spec fn last_byte(b: Seq<u8>, j: int, c: u8) -> Option<int>
    decreases j,
{
    if j <= 0 {
        None
    } else if b[j - 1] == c {
        Some(j - 1)
    } else {
        last_byte(b, j - 1, c)
    }
}

/// The namespace of a spec id: after its `INV-`, `ADR-` or `NEG-` prefix,
/// everything up to the last hyphen.
pub open spec fn spec_namespace(b: Seq<u8>) -> Option<Seq<u8>> {
    if !ref_prefix_at(b, 0) {
        None
    } else {
        match last_byte(b, b.len() as int, 0x2du8) {
            Some(p) if p >= 4 => Some(b.subrange(4, p)),
            _ => None,
        }
    }
}

proof fn lemma_last_byte(b: Seq<u8>, j: int, c: u8)
    requires
        0 <= j <= b.len(),
    ensures
        match last_byte(b, j, c) {
            Some(p) => 0 <= p < j && b[p] == c && forall|k: int| p < k < j ==> b[k] != c,
            None => forall|k: int| 0 <= k < j ==> b[k] != c,
        },
    decreases j,
{
    if j > 0 && b[j - 1] != c {
        lemma_last_byte(b, j - 1, c);
    }
}

fn last_byte_exec(b: &[u8], c: u8) -> (r: Option<usize>)
    ensures
        match r {
            Some(p) => last_byte(b@, b@.len() as int, c) == Some(p as int),
            None => last_byte(b@, b@.len() as int, c) is None,
        },
{
    let mut j = b.len();
    while j > 0
        invariant
            j <= b@.len(),
            last_byte(b@, j as int, c) == last_byte(b@, b@.len() as int, c),
        decreases j,
    {
        if b[j - 1] == c {
            return Some(j - 1);
        }
        j = j - 1;
    }
    None
}

/// Extract the namespace portion from a spec ID: `INV-STORE-001` gives
/// `STORE`.
pub fn extract_namespace(spec_id: &str) -> (r: Option<&str>)
    ensures
        match r {
            Some(ns) => spec_namespace(utf8(spec_id@)) == Some(utf8(ns@)),
            None => spec_namespace(utf8(spec_id@)) is None,
        },
{
    let b = spec_id.as_bytes();
    if !crate::trace::prefix_at_exec(b, 0) {
        return None;
    }
    proof {
        lemma_prefix_len(b@, 0);
    }
    let p = match last_byte_exec(b, 0x2du8) {
        None => return None,
        Some(p) => p,
    };
    if p < 4 {
        return None;
    }
    proof {
        lemma_last_byte(b@, b@.len() as int, 0x2du8);
        lemma_after_ascii(b@, 3);
        lemma_after_ascii(b@, p as int);
        lemma_boundary(b@, 4);
        lemma_boundary(b@, p as int);
    }
    let (head, _) = spec_id.split_at(p);
    proof {
        assert(utf8(head@) == b@.subrange(0, p as int));
        assert(b@.subrange(0, p as int).subrange(0, 4) =~= b@.subrange(0, 4));
        lemma_after_ascii(utf8(head@), 3);
        lemma_boundary(utf8(head@), 4);
    }
    let (_, ns) = head.split_at(4);
    assert(utf8(ns@) =~= b@.subrange(4, p as int));
    Some(ns)
}

/// The bytes of `:element.ns/`.
pub open spec fn element_ns_prefix() -> Seq<u8> {
    utf8(":element.ns/"@)
}

/// The bytes of `:spec.ns/`.
pub open spec fn spec_ns_prefix() -> Seq<u8> {
    utf8(":spec.ns/"@)
}

/// A namespace keyword without its `:element.ns/` or `:spec.ns/` prefix.
pub open spec fn strip_ns_prefix(b: Seq<u8>) -> Seq<u8> {
    if starts_with(b, element_ns_prefix()) {
        b.subrange(element_ns_prefix().len() as int, b.len() as int)
    } else if starts_with(b, spec_ns_prefix()) {
        b.subrange(spec_ns_prefix().len() as int, b.len() as int)
    } else {
        b
    }
}

/// The string whose UTF-8 bytes are `b`, when they are valid.
pub open spec fn text_of(b: Seq<u8>) -> Seq<char> {
    decode_utf8(b)
}

/// `s` without the ASCII prefix `p`, when `s` starts with it.
fn strip_prefix_exec<'a>(s: &'a str, p: &str) -> (r: Option<&'a str>)
    requires
        crate::text::all_ascii(utf8(p@)),
        utf8(p@).len() > 0,
    ensures
        match r {
            Some(t) => starts_with(utf8(s@), utf8(p@)) && utf8(t@) == utf8(s@).subrange(
                utf8(p@).len() as int,
                utf8(s@).len() as int,
            ),
            None => !starts_with(utf8(s@), utf8(p@)),
        },
{
    let b = s.as_bytes();
    let pb = p.as_bytes();
    if !crate::text::matches_at(b, pb, 0) {
        return None;
    }
    proof {
        let n = pb@.len() as int;
        assert(b@[n - 1] == b@.subrange(0, n)[n - 1]);
        lemma_after_ascii(b@, n - 1);
        lemma_boundary(b@, n);
    }
    let (_, rest) = s.split_at(pb.len());
    Some(rest)
}

/// The upper-cased name of a namespace keyword: `:element.ns/store` gives
/// `STORE`.
pub fn extract_namespace_name(ns_keyword: &str) -> (r: String)
    ensures
        r@ == upper(text_of(strip_ns_prefix(utf8(ns_keyword@)))),
{
    proof {
        reveal_strlit(":element.ns/");
        reveal_strlit(":spec.ns/");
        crate::text::lemma_ascii_chars(":element.ns/"@);
        crate::text::lemma_ascii_chars(":spec.ns/"@);
    }
    let stripped = match strip_prefix_exec(ns_keyword, ":element.ns/") {
        Some(t) => t,
        None => match strip_prefix_exec(ns_keyword, ":spec.ns/") {
            Some(t) => t,
            None => ns_keyword,
        },
    };
    assert(utf8(stripped@) == strip_ns_prefix(utf8(ns_keyword@)));
    assert(text_of(utf8(stripped@)) == stripped@);
    to_upper(stripped)
}

/// A spec id belongs to a namespace, compared case-insensitively: its
/// namespace, upper-cased, equals the given one upper-cased.
pub open spec fn spec_in_namespace(spec_id: Seq<char>, namespace: Seq<char>) -> bool {
    match spec_namespace(utf8(spec_id)) {
        Some(ns) => upper(text_of(ns)) == upper(namespace),
        None => false,
    }
}

/// Whether a spec id belongs to a namespace (case-insensitive comparison).
pub fn in_namespace(spec_id: &str, namespace: &str) -> (r: bool)
    ensures
        r == spec_in_namespace(spec_id@, namespace@),
{
    let ns_upper = to_upper(namespace);
    match extract_namespace(spec_id) {
        Some(ns) => {
            assert(text_of(utf8(ns@)) == ns@);
            let u = to_upper(ns);
            u == ns_upper
        },
        None => false,
    }
}

} // verus!
