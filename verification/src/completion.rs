//! Completion-bound closing of tasks: how the completion of a task is
//! justified, or why the task stays open.
use vstd::prelude::*;
use vstd::utf8::*;
use crate::text::{bytes_to_string, lemma_ascii_valid, push_str_bytes, utf8};
use crate::wrap::join;

verus! {

broadcast use vstd::utf8::group_utf8_lib;

/// How a task's completion is justified.
#[derive(Clone, Copy, Debug, PartialEq, Eq, Structural)]
pub enum CompletionMethod {
    /// `--force`: the acceptance criteria were bypassed.
    Force,
    /// `--attest`: evidence of completion was given.
    Attested,
    /// The task has no acceptance criteria.
    NoCriteria,
    /// Every automatically checkable criterion passed.
    Verified,
}

/// Whether a task is closed, and how, or stays open.
#[derive(Clone, Copy, Debug, PartialEq, Eq, Structural)]
pub enum CompletionStep {
    Close(CompletionMethod),
    /// Some criterion failed its check: the task is not closed.
    Blocked,
}

/// The completion decision: force first, then attestation, then the
/// absence of criteria, then the outcome of the checks of the criteria.
pub open spec fn spec_completion(force: bool, attested: bool, criteria: int, failed: int) -> CompletionStep {
    if force {
        CompletionStep::Close(CompletionMethod::Force)
    } else if attested {
        CompletionStep::Close(CompletionMethod::Attested)
    } else if criteria == 0 {
        CompletionStep::Close(CompletionMethod::NoCriteria)
    } else if failed == 0 {
        CompletionStep::Close(CompletionMethod::Verified)
    } else {
        CompletionStep::Blocked
    }
}

/// Decide how a task is closed: `force` and `attested` are the command's
/// flags, `criteria` the number of acceptance criteria of the task and
/// `failed` the number of them whose automatic check failed.
pub fn completion_step(force: bool, attested: bool, criteria: usize, failed: usize) -> (r: CompletionStep)
    ensures
        r == spec_completion(force, attested, criteria as int, failed as int),
{
    if force {
        CompletionStep::Close(CompletionMethod::Force)
    } else if attested {
        CompletionStep::Close(CompletionMethod::Attested)
    } else if criteria == 0 {
        CompletionStep::Close(CompletionMethod::NoCriteria)
    } else if failed == 0 {
        CompletionStep::Close(CompletionMethod::Verified)
    } else {
        CompletionStep::Blocked
    }
}

/// The keyword recorded as a task's completion method.
pub open spec fn spec_method_keyword(m: CompletionMethod) -> Seq<char> {
    match m {
        CompletionMethod::Force => ":task.completion/force"@,
        CompletionMethod::Attested => ":task.completion/attested"@,
        CompletionMethod::NoCriteria => ":task.completion/no-criteria"@,
        CompletionMethod::Verified => ":task.completion/verified"@,
    }
}

/// The keyword recorded as a task's completion method.
pub fn method_keyword(m: CompletionMethod) -> (r: &'static str)
    ensures
        r@ == spec_method_keyword(m),
{
    match m {
        CompletionMethod::Force => ":task.completion/force",
        CompletionMethod::Attested => ":task.completion/attested",
        CompletionMethod::NoCriteria => ":task.completion/no-criteria",
        CompletionMethod::Verified => ":task.completion/verified",
    }
}

/// Strings as UTF-8 byte sequences.
pub open spec fn texts_bytes(v: Seq<String>) -> Seq<Seq<u8>> {
    v.map_values(|s: String| utf8(s@))
}

/// The message of a blocked task: its id, the failed checks one per
/// indented line, and the two ways to close it anyway.
pub open spec fn spec_blocked_message(task_id: Seq<char>, failures: Seq<String>) -> Seq<u8> {
    utf8("CBV: acceptance criteria not met for "@) + utf8(task_id) + utf8(":\n  "@) + join(
        texts_bytes(failures),
        utf8("\n  "@),
    ) + utf8(
        "\n  Preferred: --attest \"evidence\" to document why criteria are met\n  Last resort: --force to bypass (will show WARNING)"@,
    )
}

/// The message of a task left open because checks of its acceptance
/// criteria failed.
pub fn blocked_message(task_id: &str, failures: &Vec<String>) -> (r: String)
    ensures
        utf8(r@) == spec_blocked_message(task_id@, failures@),
{
    let mut v: Vec<u8> = Vec::new();
    proof {
        lemma_ascii_valid(v@);
    }
    push_str_bytes(&mut v, "CBV: acceptance criteria not met for ");
    push_str_bytes(&mut v, task_id);
    push_str_bytes(&mut v, ":\n  ");
    let ghost mid = v@;
    let ghost parts = texts_bytes(failures@);
    let mut k: usize = 0;
    assert(parts.subrange(0, 0) =~= Seq::<Seq<u8>>::empty());
    while k < failures.len()
        invariant
            k <= failures@.len(),
            parts == texts_bytes(failures@),
            valid_utf8(v@),
            v@ == mid + join(parts.subrange(0, k as int), utf8("\n  "@)),
        decreases failures.len() - k,
    {
        let ghost done = parts.subrange(0, k + 1);
        assert(done.drop_last() =~= parts.subrange(0, k as int));
        let ghost v0 = v@;
        if k > 0 {
            push_str_bytes(&mut v, "\n  ");
        }
        let ghost v1 = v@;
        push_str_bytes(&mut v, failures[k].as_str());
        proof {
            assert(done.last() == utf8(failures@[k as int]@));
            if k == 0 {
                assert(join(parts.subrange(0, 0), utf8("\n  "@)) =~= Seq::<u8>::empty());
                assert(v@ =~= mid + done[0]);
            } else {
                assert(v1 == v0 + utf8("\n  "@));
                assert(v@ =~= mid + (join(parts.subrange(0, k as int), utf8("\n  "@)) + utf8(
                    "\n  "@,
                ) + done.last()));
            }
        }
        k = k + 1;
    }
    assert(parts.subrange(0, failures@.len() as int) =~= parts);
    push_str_bytes(
        &mut v,
        "\n  Preferred: --attest \"evidence\" to document why criteria are met\n  Last resort: --force to bypass (will show WARNING)",
    );
    assert(v@ =~= spec_blocked_message(task_id@, failures@));
    bytes_to_string(v)
}

/// A task is closed as verified only when no check of its criteria failed;
/// without `--force` or `--attest`, a task with criteria and a failed check
/// stays open. `--force` always closes, as forced; `--attest` without
/// `--force` always closes, as attested.
pub proof fn law_failed_check_blocks(force: bool, attested: bool, criteria: int, failed: int)
    ensures
        spec_completion(force, attested, criteria, failed) == CompletionStep::Close(
            CompletionMethod::Verified,
        ) ==> failed == 0 && criteria != 0 && !force && !attested,
        !force && !attested && criteria != 0 && failed != 0 ==> spec_completion(
            force,
            attested,
            criteria,
            failed,
        ) == CompletionStep::Blocked,
        spec_completion(force, attested, criteria, failed) == CompletionStep::Blocked ==> failed != 0,
        force ==> spec_completion(force, attested, criteria, failed) == CompletionStep::Close(
            CompletionMethod::Force,
        ),
        !force && attested ==> spec_completion(force, attested, criteria, failed)
            == CompletionStep::Close(CompletionMethod::Attested),
        !force && !attested && criteria == 0 ==> spec_completion(force, attested, criteria, failed)
            == CompletionStep::Close(CompletionMethod::NoCriteria),
        !force && !attested && criteria != 0 && failed == 0 ==> spec_completion(
            force,
            attested,
            criteria,
            failed,
        ) == CompletionStep::Close(CompletionMethod::Verified),
{
}

} // verus!
