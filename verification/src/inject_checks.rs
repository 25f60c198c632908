//! Checks on injected content: its embedded `Updated:` timestamp, its age
//! and staleness, and the quality signals of the generated markdown.
use vstd::prelude::*;
use crate::text::{
    contains, contains_bytes, first_occ, first_occ_exec, lemma_first_occ, occurs_at, parse_unsigned,
    parse_unsigned_exec, utf8, ws_width, ws_width_at,
};

verus! {

// ---------------------------------------------------------------------------
// Timestamp, age and staleness
// ---------------------------------------------------------------------------

/// The marker that precedes the generation timestamp.
pub open spec fn updated_marker() -> Seq<u8> {
    utf8("<!-- Updated: "@)
}

/// Seconds after which injected content counts as stale (one hour).
pub const STALE_AFTER_SECS: u64 = 3600;

/// The timestamp written after the first `<!-- Updated: ` marker, up to the
/// first space after it, parsed as a `u64`.
pub open spec fn spec_timestamp(b: Seq<u8>) -> Option<int> {
    match first_occ(b, updated_marker(), 0) {
        None => None,
        Some(s) => {
            let after = s + updated_marker().len();
            match first_occ(b, seq![0x20u8], after) {
                None => None,
                Some(e) => parse_unsigned(b.subrange(after, e), u64::MAX as int),
            }
        },
    }
}

/// Age of content at time `now`: `now - timestamp`, or 0 for a timestamp in
/// the future.
pub open spec fn spec_age_at(b: Seq<u8>, now: int) -> Option<int> {
    match spec_timestamp(b) {
        None => None,
        Some(ts) => Some(if now >= ts {
            now - ts
        } else {
            0
        }),
    }
}

/// Content is stale at `now` when it has no timestamp or is older than an
/// hour.
pub open spec fn spec_stale_at(b: Seq<u8>, now: int) -> bool {
    match spec_age_at(b, now) {
        None => true,
        Some(age) => age > STALE_AFTER_SECS,
    }
}

/// The generation timestamp embedded in injected content, if any.
pub fn injection_timestamp(content: &str) -> (r: Option<u64>)
    ensures
        match r {
            Some(ts) => spec_timestamp(utf8(content@)) == Some(ts as int),
            None => spec_timestamp(utf8(content@)) is None,
        },
{
    let b = content.as_bytes();
    let blen = b.len();
    let marker = "<!-- Updated: ".as_bytes();
    assert(marker@ == updated_marker());
    let start = match first_occ_exec(b, marker, 0) {
        None => return None,
        Some(s) => s,
    };
    proof {
        lemma_first_occ(b@, marker@, 0);
        assert(occurs_at(b@, marker@, start as int));
        assert(start + marker@.len() <= b@.len());
    }
    let after = start + marker.len();
    let space: Vec<u8> = vec![0x20u8];
    assert(space@ =~= seq![0x20u8]);
    let end = match first_occ_exec(b, space.as_slice(), after) {
        None => return None,
        Some(e) => e,
    };
    proof {
        lemma_first_occ(b@, space@, after as int);
    }
    parse_unsigned_exec(b, after, end, u64::MAX)
}

/// Age in seconds, at time `now`, of injected content: `None` when it has no
/// timestamp.
pub fn injection_age_at(content: &str, now: u64) -> (r: Option<u64>)
    ensures
        match r {
            Some(age) => spec_age_at(utf8(content@), now as int) == Some(age as int),
            None => spec_age_at(utf8(content@), now as int) is None,
        },
{
    match injection_timestamp(content) {
        None => None,
        Some(ts) => Some(now.saturating_sub(ts)),
    }
}

/// Whether injected content is stale at time `now`: it has no timestamp, or
/// it is more than an hour old.
pub fn is_stale_at(content: &str, now: u64) -> (r: bool)
    ensures
        r == spec_stale_at(utf8(content@), now as int),
{
    match injection_age_at(content, now) {
        Some(age) => age > STALE_AFTER_SECS,
        None => true,
    }
}

/// A point in time of the system clock, carried through unread.
#[verifier::external_type_specification]
#[verifier::external_body]
pub struct ExSystemTime(std::time::SystemTime);

/// The current time of the system clock.
///
/// Calls `std::time::SystemTime::now`; the value depends on the clock, so
/// nothing is stated of it.
#[verifier::external_body]
fn system_now() -> std::time::SystemTime {
    std::time::SystemTime::now()
}

/// The time elapsed from the Unix epoch to `t`, or `None` when `t` lies
/// before the epoch.
///
/// Calls `SystemTime::duration_since(UNIX_EPOCH)`; nothing is stated of the
/// duration, which depends on the clock's value.
#[verifier::external_body]
fn since_unix_epoch(t: &std::time::SystemTime) -> Option<std::time::Duration> {
    t.duration_since(std::time::UNIX_EPOCH).ok()
}

/// The whole seconds of a duration.
///
/// Calls `Duration::as_secs`; the duration is opaque here, so nothing is
/// stated of the result.
#[verifier::external_body]
fn whole_secs(d: &std::time::Duration) -> u64 {
    d.as_secs()
}

/// Seconds since the Unix epoch, by the system clock (0 for a clock set
/// before the epoch).
pub(crate) fn unix_now_secs() -> u64 {
    let now = system_now();
    match since_unix_epoch(&now) {
        Some(d) => whole_secs(&d),
        None => 0,
    }
}

/// Age in seconds of injected content by the system clock: `None` when it has
/// no timestamp.
pub fn injection_age_seconds(content: &str) -> (r: Option<u64>)
    ensures
        exists|now: u64| #[trigger] spec_age_at(utf8(content@), now as int) == match r {
            Some(age) => Some(age as int),
            None => None::<int>,
        },
        r is None <==> spec_timestamp(utf8(content@)) is None,
{
    let now = unix_now_secs();
    let r = injection_age_at(content, now);
    assert(spec_age_at(utf8(content@), now as int) == match r {
        Some(age) => Some(age as int),
        None => None::<int>,
    });
    r
}

/// Whether injected content is stale by the system clock: it has no
/// timestamp, or it is more than an hour old.
pub fn is_injection_stale(content: &str) -> (r: bool)
    ensures
        exists|now: u64| r == #[trigger] spec_stale_at(utf8(content@), now as int),
        spec_timestamp(utf8(content@)) is None ==> r,
{
    let now = unix_now_secs();
    let r = is_stale_at(content, now);
    assert(r == spec_stale_at(utf8(content@), now as int));
    r
}

// ---------------------------------------------------------------------------
// Quality signals
// ---------------------------------------------------------------------------

/// The number of white-space separated words of `b[i..]` (as
/// `str::split_whitespace` counts them), `in_word` telling whether `i` lies
/// inside a word already counted.
pub open spec fn words_from(b: Seq<u8>, i: int, in_word: bool) -> int
    decreases b.len() - i,
{
    if i < 0 || i >= b.len() {
        0
    } else if ws_width(b, i) > 0 {
        words_from(b, i + ws_width(b, i), false)
    } else {
        (if in_word {
            0int
        } else {
            1int
        }) + words_from(b, i + 1, true)
    }
}

/// The number of white-space separated words of a text.
pub open spec fn word_count(b: Seq<u8>) -> int {
    words_from(b, 0, false)
}

/// Signals of a generated injection: an estimate of its tokens, which of the
/// expected sections it has, and the composite score, in hundredths.
#[derive(Clone, Copy, Debug, PartialEq, Eq, Structural)]
pub struct InjectionQuality {
    /// Total estimated tokens in the injection.
    pub token_count: usize,
    /// Number of sections present (max 5: context, constraints, entities,
    /// questions, actions).
    pub section_count: usize,
    /// Whether the quick reference block is present.
    pub has_quick_reference: bool,
    /// Whether at least one next action is present.
    pub has_next_action: bool,
    /// Whether store context (datom/entity counts) is present.
    pub has_store_context: bool,
    /// Overall quality score in hundredths: 0 (useless) to 100 (complete).
    pub score_percent: u64,
}

pub open spec fn mentions(b: Seq<u8>, lit: Seq<char>) -> bool {
    contains(b, utf8(lit))
}

pub open spec fn count_true(flags: Seq<bool>) -> int
    decreases flags.len(),
{
    if flags.len() == 0 {
        0
    } else {
        count_true(flags.drop_last()) + if flags.last() {
            1int
        } else {
            0int
        }
    }
}

/// The five section flags of a text: store context, constraints, entities,
/// questions, actions.
pub open spec fn section_flags(b: Seq<u8>) -> Seq<bool> {
    seq![
        mentions(b, "### Session Context"@) || mentions(b, "### Store Context"@),
        mentions(b, "### Active Constraints"@),
        mentions(b, "### Recent Entities"@),
        mentions(b, "### Open Questions"@),
        mentions(b, "### Next Actions"@),
    ]
}

/// The composite score in hundredths: 25 for store context, 25 for a next
/// action, 8 per section, 10 for the quick reference, at most 100.
pub open spec fn score_percent(store: bool, next: bool, sections: int, quick: bool) -> int {
    let s = (if store {
        25int
    } else {
        0
    }) + (if next {
        25int
    } else {
        0
    }) + 8 * sections + (if quick {
        10int
    } else {
        0
    });
    if s > 100 {
        100
    } else {
        s
    }
}

/// The quality signals of a text.
pub open spec fn spec_quality(b: Seq<u8>) -> InjectionQuality {
    let store = section_flags(b)[0];
    let next = mentions(b, "run: braid"@) || mentions(b, "next:"@);
    let quick = mentions(b, "### Quick Reference"@);
    let sections = count_true(section_flags(b));
    InjectionQuality {
        token_count: (word_count(b) * 4 / 3) as usize,
        section_count: sections as usize,
        has_quick_reference: quick,
        has_next_action: next,
        has_store_context: store,
        score_percent: score_percent(store, next, sections, quick) as u64,
    }
}

proof fn lemma_words_bound(b: Seq<u8>, i: int, in_word: bool)
    requires
        0 <= i <= b.len(),
    ensures
        0 <= words_from(b, i, in_word),
        2 * words_from(b, i, in_word) <= b.len() - i + if in_word {
            0int
        } else {
            1int
        },
    decreases b.len() - i,
{
    if i < b.len() {
        if ws_width(b, i) > 0 {
            lemma_words_bound(b, i + ws_width(b, i), false);
        } else {
            lemma_words_bound(b, i + 1, true);
        }
    }
}

/// The number of white-space separated words of a text.
fn count_words(b: &[u8]) -> (n: usize)
    ensures
        n == word_count(b@),
        2 * n <= b@.len() + 1,
{
    let mut k: usize = 0;
    let mut in_word = false;
    let mut n: usize = 0;
    proof {
        lemma_words_bound(b@, 0, false);
    }
    while k < b.len()
        invariant
            k <= b@.len(),
            n <= k,
            n + words_from(b@, k as int, in_word) == word_count(b@),
        decreases b@.len() - k,
    {
        let w = ws_width_at(b, k);
        if w > 0 {
            k = k + w;
            in_word = false;
        } else {
            if !in_word {
                n = n + 1;
            }
            k = k + 1;
            in_word = true;
        }
    }
    n
}

fn has_text(b: &[u8], lit: &str) -> (r: bool)
    ensures
        r == mentions(b@, lit@),
{
    contains_bytes(b, lit.as_bytes())
}

/// Assess the quality of injection content: the estimated token count
/// (words × 4 / 3), which expected sections and markers it holds, and the
/// composite score.
pub fn assess_injection_quality(content: &str) -> (q: InjectionQuality)
    ensures
        q == spec_quality(utf8(content@)),
{
    let b = content.as_bytes();
    let blen = b.len();
    let words = count_words(b);
    assert(words / 3 * 4 + (words % 3) * 4 / 3 == words * 4 / 3 && words * 4 / 3 <= usize::MAX)
        by (nonlinear_arith)
        requires
            words >= 0,
            2 * words <= usize::MAX + 1,
            usize::MAX >= 3,
    ;
    let token_count = words / 3 * 4 + (words % 3) * 4 / 3;
    let has_store_context = has_text(b, "### Session Context") || has_text(b, "### Store Context");
    let has_constraints = has_text(b, "### Active Constraints");
    let has_entities = has_text(b, "### Recent Entities");
    let has_questions = has_text(b, "### Open Questions");
    let has_actions = has_text(b, "### Next Actions");
    let has_quick_reference = has_text(b, "### Quick Reference");
    let has_next_action = has_text(b, "run: braid") || has_text(b, "next:");
    let mut section_count: usize = 0;
    if has_store_context {
        section_count = section_count + 1;
    }
    if has_constraints {
        section_count = section_count + 1;
    }
    if has_entities {
        section_count = section_count + 1;
    }
    if has_questions {
        section_count = section_count + 1;
    }
    if has_actions {
        section_count = section_count + 1;
    }
    proof {
        let f = section_flags(b@);
        assert(f.drop_last().drop_last().drop_last().drop_last().drop_last() =~= Seq::<
            bool,
        >::empty());
        reveal_with_fuel(count_true, 6);
    }
    let mut score: u64 = 0;
    if has_store_context {
        score = score + 25;
    }
    if has_next_action {
        score = score + 25;
    }
    score = score + 8 * (section_count as u64);
    if has_quick_reference {
        score = score + 10;
    }
    if score > 100 {
        score = 100;
    }
    InjectionQuality {
        token_count,
        section_count,
        has_quick_reference,
        has_next_action,
        has_store_context,
        score_percent: score,
    }
}

} // verus!
