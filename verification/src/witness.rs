//! Witness staleness: why a test witness no longer matches its spec
//! element, and the text that reports it.
use vstd::prelude::*;
use vstd::utf8::*;
use crate::text::{bytes_to_string, lemma_ascii_valid, push_str_bytes, utf8};

verus! {

broadcast use vstd::utf8::group_utf8_lib;

/// Why a witness went stale.
#[derive(Debug)]
pub enum StaleReason {
    /// The spec element's statement changed.
    SpecDrift,
    /// The spec element's falsification condition changed.
    FalsificationDrift,
    /// The witnessing test's body changed.
    TestBodyDrift,
    /// Several of these at once.
    MultiDrift(Vec<StaleReason>),
}

/// The report text of a stale reason: a fixed phrase for each single
/// reason, and the texts of the parts joined by ` + ` for several.
pub open spec fn reason_text(r: StaleReason) -> Seq<u8>
    decreases r,
{
    match r {
        StaleReason::SpecDrift => utf8("spec statement changed"@),
        StaleReason::FalsificationDrift => utf8("falsification condition changed"@),
        StaleReason::TestBodyDrift => utf8("test body changed"@),
        StaleReason::MultiDrift(rs) => joined_text(rs@),
    }
}

/// The texts of `rs` joined by ` + `.
pub open spec fn joined_text(rs: Seq<StaleReason>) -> Seq<u8>
    decreases rs,
{
    if rs.len() == 0 {
        Seq::empty()
    } else if rs.len() == 1 {
        reason_text(rs[0])
    } else {
        joined_text(rs.subrange(0, rs.len() - 1)) + utf8(" + "@) + reason_text(rs[rs.len() - 1])
    }
}

fn push_reason(v: &mut Vec<u8>, r: &StaleReason)
    requires
        valid_utf8(old(v)@),
    ensures
        final(v)@ == old(v)@ + reason_text(*r),
        valid_utf8(final(v)@),
    decreases r,
{
    match r {
        StaleReason::SpecDrift => push_str_bytes(v, "spec statement changed"),
        StaleReason::FalsificationDrift => push_str_bytes(v, "falsification condition changed"),
        StaleReason::TestBodyDrift => push_str_bytes(v, "test body changed"),
        StaleReason::MultiDrift(rs) => {
            let ghost start = v@;
            let mut i: usize = 0;
            while i < rs.len()
                invariant
                    i <= rs.len(),
                    *r is MultiDrift,
                    (*r)->MultiDrift_0 == *rs,
                    valid_utf8(v@),
                    v@ == start + joined_text(rs@.subrange(0, i as int)),
                decreases rs.len() - i,
            {
                let ghost before = v@;
                if i > 0 {
                    push_str_bytes(v, " + ");
                }
                proof {
                    let rv = (*r)->MultiDrift_0;
                    assert(decreases_to!(*r => rv));
                    assert(decreases_to!(rv => rv@));
                    assert(decreases_to!(rv@ => rv@[i as int]));
                }
                push_reason(v, &rs[i]);
                proof {
                    let s = rs@.subrange(0, i + 1);
                    assert(s.subrange(0, s.len() - 1) =~= rs@.subrange(0, i as int));
                    assert(v@ =~= start + joined_text(s));
                }
                i = i + 1;
            }
            assert(rs@.subrange(0, rs.len() as int) =~= rs@);
        },
    }
}

/// Format a stale reason into a human-readable string.
pub fn format_stale_reason(reason: &StaleReason) -> (r: String)
    ensures
        utf8(r@) == reason_text(*reason),
{
    let mut v: Vec<u8> = Vec::new();
    proof {
        lemma_ascii_valid(v@);
    }
    push_reason(&mut v, reason);
    assert(v@ =~= reason_text(*reason));
    bytes_to_string(v)
}

} // verus!
