use braid::completion::{
    blocked_message, completion_step, method_keyword, CompletionMethod, CompletionStep,
};

#[test]
fn force_wins_over_everything() {
    assert_eq!(completion_step(true, true, 3, 3), CompletionStep::Close(CompletionMethod::Force));
}

#[test]
fn attestation_wins_over_failed_checks() {
    assert_eq!(completion_step(false, true, 2, 2), CompletionStep::Close(CompletionMethod::Attested));
}

#[test]
fn no_criteria_closes() {
    assert_eq!(completion_step(false, false, 0, 0), CompletionStep::Close(CompletionMethod::NoCriteria));
}

#[test]
fn checks_decide_verified_or_blocked() {
    assert_eq!(completion_step(false, false, 2, 0), CompletionStep::Close(CompletionMethod::Verified));
    assert_eq!(completion_step(false, false, 2, 1), CompletionStep::Blocked);
}

#[test]
fn completion_keywords() {
    assert_eq!(method_keyword(CompletionMethod::Force), ":task.completion/force");
    assert_eq!(method_keyword(CompletionMethod::Attested), ":task.completion/attested");
    assert_eq!(method_keyword(CompletionMethod::NoCriteria), ":task.completion/no-criteria");
    assert_eq!(method_keyword(CompletionMethod::Verified), ":task.completion/verified");
}

#[test]
fn blocked_message_lists_failures() {
    let m = blocked_message("t-1", &vec!["test a failed".to_string(), "file b missing".to_string()]);
    assert_eq!(
        m,
        "CBV: acceptance criteria not met for t-1:\n  test a failed\n  file b missing\n  Preferred: --attest \"evidence\" to document why criteria are met\n  Last resort: --force to bypass (will show WARNING)"
    );
}
