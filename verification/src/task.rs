//! Task helpers that need no store: attribute names, and the minimal JSON
//! field extraction used to import beads JSONL lines.
use vstd::prelude::*;
use vstd::utf8::*;
use crate::text::{
    boundary, bytes_to_string, first_occ, first_occ_exec, is_digit, lemma_after_ascii,
    lemma_ascii_valid, lemma_first_occ, matches_at, parse_i64, parse_i64_exec, push_span, skip_ws,
    skip_ws_exec, starts_with, utf8,
};

verus! {

broadcast use vstd::utf8::group_utf8_lib;

// ---------------------------------------------------------------------------
// Attribute names
// ---------------------------------------------------------------------------

/// The store keyword of a friendly attribute name.
pub open spec fn spec_attribute_keyword(a: Seq<char>) -> Option<Seq<char>> {
    if a == "priority"@ {
        Some(":task/priority"@)
    } else if a == "status"@ {
        Some(":task/status"@)
    } else if a == "type"@ {
        Some(":task/type"@)
    } else if a == "title"@ {
        Some(":task/title"@)
    } else {
        None
    }
}

/// Two strings with the same UTF-8 bytes are the same string.
proof fn lemma_utf8_injective(x: Seq<char>, y: Seq<char>)
    requires
        utf8(x) == utf8(y),
    ensures
        x == y,
{
    encode_utf8_decode_utf8(x);
    encode_utf8_decode_utf8(y);
}

/// The two strings are equal.
fn str_eq(a: &str, b: &str) -> (r: bool)
    ensures
        r == (a@ == b@),
{
    let r = crate::text::bytes_eq(a.as_bytes(), b.as_bytes());
    proof {
        if r {
            lemma_utf8_injective(a@, b@);
        }
    }
    r
}

/// Map a friendly attribute name to its store keyword for current value
/// lookup.
pub fn attribute_to_keyword(attribute: &str) -> (r: Option<&'static str>)
    ensures
        match r {
            Some(k) => spec_attribute_keyword(attribute@) == Some(k@),
            None => spec_attribute_keyword(attribute@) is None,
        },
{
    if str_eq(attribute, "priority") {
        Some(":task/priority")
    } else if str_eq(attribute, "status") {
        Some(":task/status")
    } else if str_eq(attribute, "type") {
        Some(":task/type")
    } else if str_eq(attribute, "title") {
        Some(":task/title")
    } else {
        None
    }
}

// ---------------------------------------------------------------------------
// Minimal JSON field extraction
// ---------------------------------------------------------------------------

/// The bytes `"key":` that introduce a field.
pub open spec fn key_pattern(key: Seq<u8>) -> Seq<u8> {
    seq![0x22u8] + key + seq![0x22u8, 0x3a]
}

/// Where the value of the first `"key":` starts, after white space.
pub open spec fn value_start(b: Seq<u8>, key: Seq<u8>) -> Option<int> {
    match first_occ(b, key_pattern(key), 0) {
        None => None,
        Some(p) => Some(skip_ws(b, p + key_pattern(key).len(), b.len() as int)),
    }
}

/// The string value of a field: the bytes between the quote that starts the
/// value and the next quote.
pub open spec fn spec_json_string(b: Seq<u8>, key: Seq<u8>) -> Option<Seq<u8>> {
    match value_start(b, key) {
        None => None,
        Some(a) => if a < b.len() && b[a] == 0x22 {
            match first_occ(b, seq![0x22u8], a + 1) {
                None => None,
                Some(e) => Some(b.subrange(a + 1, e)),
            }
        } else {
            None
        },
    }
}

/// The first position at or after `i` whose byte is neither a digit nor
/// `-`, if there is one.
pub open spec fn number_end(b: Seq<u8>, i: int) -> Option<int>
    decreases b.len() - i,
{
    if i < 0 || i >= b.len() {
        None
    } else if is_digit(b[i]) || b[i] == 0x2d {
        number_end(b, i + 1)
    } else {
        Some(i)
    }
}

/// The number value of a field: the run of digits and `-` that starts the
/// value, which must be followed by some other character, parsed as an
/// `i64`.
pub open spec fn spec_json_number(b: Seq<u8>, key: Seq<u8>) -> Option<int> {
    match value_start(b, key) {
        None => None,
        Some(a) => match number_end(b, a) {
            None => None,
            Some(e) => parse_i64(b.subrange(a, e)),
        },
    }
}

/// The bytes of an optional string.
pub open spec fn opt_bytes(o: Option<String>) -> Option<Seq<u8>> {
    match o {
        Some(s) => Some(utf8(s@)),
        None => None,
    }
}

/// The pattern `"key":` as bytes.
fn key_pattern_exec(key: &[u8]) -> (p: Vec<u8>)
    ensures
        p@ == key_pattern(key@),
{
    let mut p: Vec<u8> = Vec::new();
    p.push(0x22u8);
    crate::text::push_all(&mut p, key);
    p.push(0x22u8);
    p.push(0x3au8);
    assert(p@ =~= key_pattern(key@));
    p
}

/// Where the value of the first `"key":` starts.
fn value_start_exec(b: &[u8], key: &[u8]) -> (r: Option<usize>)
    ensures
        match r {
            Some(a) => value_start(b@, key@) == Some(a as int) && a <= b@.len(),
            None => value_start(b@, key@) is None,
        },
{
    let blen = b.len();
    let pat = key_pattern_exec(key);
    match first_occ_exec(b, pat.as_slice(), 0) {
        None => None,
        Some(p) => {
            proof {
                lemma_first_occ(b@, pat@, 0);
            }
            let after = p + pat.len();
            Some(skip_ws_exec(b, after, b.len()))
        },
    }
}

/// Extract a string value from JSON by key (minimal, no JSON parser): the
/// text between the quotes that follow the first `"key":`.
pub fn extract_json_string(json: &str, key: &str) -> (r: Option<String>)
    ensures
        opt_bytes(r) == spec_json_string(utf8(json@), utf8(key@)),
{
    let b = json.as_bytes();
    let blen = b.len();
    let a = match value_start_exec(b, key.as_bytes()) {
        None => return None,
        Some(a) => a,
    };
    if !(a < b.len() && b[a] == 0x22) {
        return None;
    }
    let quote: [u8; 1] = [0x22u8];
    assert(quote@ =~= seq![0x22u8]);
    let e = match first_occ_exec(b, quote.as_slice(), a + 1) {
        None => return None,
        Some(e) => e,
    };
    proof {
        lemma_first_occ(b@, quote@, a + 1);
        assert(b@[e as int] == b@.subrange(e as int, e + 1)[0]);
        lemma_after_ascii(b@, a as int);
        lemma_after_ascii(b@, e as int);
    }
    let mut out: Vec<u8> = Vec::new();
    proof {
        lemma_ascii_valid(out@);
    }
    push_span(&mut out, b, a + 1, e);
    assert(out@ =~= b@.subrange(a + 1, e as int));
    Some(bytes_to_string(out))
}

fn number_end_exec(b: &[u8], i: usize) -> (r: Option<usize>)
    requires
        i <= b@.len(),
    ensures
        match r {
            Some(e) => number_end(b@, i as int) == Some(e as int) && i <= e < b@.len(),
            None => number_end(b@, i as int) is None,
        },
{
    let mut k = i;
    while k < b.len()
        invariant
            i <= k <= b@.len(),
            number_end(b@, k as int) == number_end(b@, i as int),
        decreases b@.len() - k,
    {
        let c = b[k];
        if !((0x30 <= c && c <= 0x39) || c == 0x2d) {
            return Some(k);
        }
        k = k + 1;
    }
    None
}

/// Extract a number value from JSON by key: the run of digits and `-` after
/// the first `"key":`, parsed as an `i64`.
pub fn extract_json_number(json: &str, key: &str) -> (r: Option<i64>)
    ensures
        match r {
            Some(n) => spec_json_number(utf8(json@), utf8(key@)) == Some(n as int),
            None => spec_json_number(utf8(json@), utf8(key@)) is None,
        },
{
    let b = json.as_bytes();
    let a = match value_start_exec(b, key.as_bytes()) {
        None => return None,
        Some(a) => a,
    };
    let e = match number_end_exec(b, a) {
        None => return None,
        Some(e) => e,
    };
    parse_i64_exec(b, a, e)
}

// ---------------------------------------------------------------------------
// Beads JSONL lines
// ---------------------------------------------------------------------------

/// Minimal bead parsed from JSONL.
#[derive(Clone, Debug)]
pub struct ParsedBead {
    pub original_id: String,
    pub task_id: String,
    pub title: String,
    pub description: Option<String>,
    pub status: String,
    pub priority: i64,
    pub task_type: String,
    pub labels: Vec<String>,
}

/// The bytes of `brai-`.
pub open spec fn brai_prefix() -> Seq<u8> {
    seq![0x62u8, 0x72, 0x61, 0x69, 0x2d]
}

/// The short task id made from a beads id: the id itself when it starts
/// with `brai-`, else `b-` and its first eight bytes.
pub open spec fn spec_task_id(id: Seq<u8>) -> Seq<u8> {
    if starts_with(id, brai_prefix()) {
        id
    } else {
        seq![0x62u8, 0x2d] + id.subrange(0, if id.len() < 8 {
            id.len() as int
        } else {
            8
        })
    }
}

/// A beads id can be shortened: it starts with `brai-`, or its first eight
/// bytes end at a character boundary.
pub open spec fn id_shortenable(id: Seq<u8>) -> bool {
    starts_with(id, brai_prefix()) || id.len() <= 8 || boundary(id, 8)
}

/// A line has both an `id` and a `title` string field.
pub open spec fn bead_parses(b: Seq<u8>) -> bool {
    spec_json_string(b, utf8("id"@)) is Some && spec_json_string(b, utf8("title"@)) is Some
}

/// Parse a single beads JSONL line: it needs an `id` and a `title`; the
/// status defaults to `open`, the priority to 2 and the type to `task`.
pub fn parse_bead_line(line: &str) -> (r: Option<ParsedBead>)
    requires
        bead_parses(utf8(line@)) ==> id_shortenable(
            spec_json_string(utf8(line@), utf8("id"@))->0,
        ),
    ensures
        r is Some <==> bead_parses(utf8(line@)),
        r matches Some(bead) ==> {
            let b = utf8(line@);
            let id = spec_json_string(b, utf8("id"@))->0;
            &&& utf8(bead.original_id@) == id
            &&& utf8(bead.task_id@) == spec_task_id(id)
            &&& Some(utf8(bead.title@)) == spec_json_string(b, utf8("title"@))
            &&& opt_bytes(bead.description) == spec_json_string(b, utf8("description"@))
            &&& utf8(bead.status@) == match spec_json_string(b, utf8("status"@)) {
                Some(s) => s,
                None => utf8("open"@),
            }
            &&& bead.priority == match spec_json_number(b, utf8("priority"@)) {
                Some(p) => p,
                None => 2,
            }
            &&& utf8(bead.task_type@) == match spec_json_string(b, utf8("type"@)) {
                Some(t) => t,
                None => utf8("task"@),
            }
            &&& bead.labels@.len() == 0
        },
{
    let id = match extract_json_string(line, "id") {
        Some(s) => s,
        None => return None,
    };
    let title = match extract_json_string(line, "title") {
        Some(s) => s,
        None => return None,
    };
    let description = extract_json_string(line, "description");
    let status = match extract_json_string(line, "status") {
        Some(s) => s,
        None => "open".to_owned(),
    };
    let priority = match extract_json_number(line, "priority") {
        Some(p) => p,
        None => 2,
    };
    let bead_type = match extract_json_string(line, "type") {
        Some(s) => s,
        None => "task".to_owned(),
    };
    let idb = id.as_str().as_bytes();
    let brai: [u8; 5] = [0x62u8, 0x72, 0x61, 0x69, 0x2d];
    assert(brai@ =~= brai_prefix());
    let task_id = if matches_at(idb, brai.as_slice(), 0) {
        id.clone()
    } else {
        let n = if idb.len() < 8 {
            idb.len()
        } else {
            8
        };
        let mut v: Vec<u8> = Vec::new();
        v.push(0x62u8);
        v.push(0x2du8);
        proof {
            lemma_ascii_valid(v@);
            if idb@.len() > 0 {
                crate::text::lemma_first_not_continuation(idb@);
            }
        }
        push_span(&mut v, idb, 0, n);
        assert(v@ =~= spec_task_id(idb@));
        bytes_to_string(v)
    };
    Some(
        ParsedBead {
            original_id: id,
            task_id,
            title,
            description,
            status,
            priority,
            task_type: bead_type,
            labels: Vec::new(),
        },
    )
}

} // verus!
