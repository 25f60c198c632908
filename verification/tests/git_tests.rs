use braid::git::{
    branch_from_output, format_git_context, log_filter, parse_commit_log, parse_numstat,
    root_from_output, CommitInfo, GitContext,
};

#[test]
fn format_empty_context() {
    let ctx = GitContext::default();
    assert!(format_git_context(&ctx).is_empty());
}

#[test]
fn format_nonempty_context() {
    let ctx = GitContext {
        commits: vec![CommitInfo {
            hash: "abc1234".into(),
            subject: "test commit".into(),
            author: "test".into(),
            timestamp: 1234567890,
        }],
        files_changed: 3,
        insertions: 42,
        deletions: 10,
        branch: Some("main".into()),
    };
    let formatted = format_git_context(&ctx);
    assert!(formatted.contains("1 commits"));
    assert!(formatted.contains("main"));
    assert!(formatted.contains("+42/-10"));
}

#[test]
fn format_exact_with_and_without_branch() {
    let mut ctx = GitContext {
        commits: vec![CommitInfo {
            hash: "h".into(),
            subject: "s".into(),
            author: "a".into(),
            timestamp: 0,
        }],
        files_changed: 3,
        insertions: 42,
        deletions: 10,
        branch: None,
    };
    assert_eq!(format_git_context(&ctx), "  git: 1 commits, 3 files (+42/-10)");
    ctx.branch = Some("dev".into());
    assert_eq!(format_git_context(&ctx), "  git: branch=dev,  1 commits, 3 files (+42/-10)");
}

#[test]
fn commit_log_lines_with_four_fields() {
    let out = "abc\0Fix it\0Ann\01700000000\nbad line\nd1\0s\0a\0notnum\0extra\n";
    let commits = parse_commit_log(out);
    assert_eq!(commits.len(), 2);
    assert_eq!(commits[0].hash, "abc");
    assert_eq!(commits[0].subject, "Fix it");
    assert_eq!(commits[0].author, "Ann");
    assert_eq!(commits[0].timestamp, 1700000000);
    assert_eq!(commits[1].hash, "d1");
    assert_eq!(commits[1].timestamp, 0);
}

#[test]
fn numstat_sums_and_distinct_files() {
    let out = "3\t1\tsrc/a.rs\n-\t-\timg.png\n\n2\t5\tsrc/a.rs\n  7\t0\tREADME.md  \nnonsense\n";
    assert_eq!(parse_numstat(out), Some((3, 12, 6)));
    assert_eq!(parse_numstat(""), Some((0, 0, 0)));
}

#[test]
fn numstat_overflow_is_reported() {
    let out = "18446744073709551615\t0\ta\n1\t0\tb\n";
    assert_eq!(parse_numstat(out), None);
}

#[test]
fn rev_parse_outputs() {
    assert_eq!(root_from_output("/repo\n"), Some("/repo".to_string()));
    assert_eq!(root_from_output("  \n"), None);
    assert_eq!(branch_from_output("main\n"), Some("main".to_string()));
    assert_eq!(branch_from_output("HEAD\n"), None);
    assert_eq!(branch_from_output(""), None);
    assert_eq!(branch_from_output("HEADS\n"), Some("HEADS".to_string()));
}

#[test]
fn log_filter_by_timestamp() {
    assert_eq!(log_filter(0), "--max-count=50");
    assert_eq!(log_filter(946_684_800), "--max-count=50");
    assert_eq!(log_filter(1_700_000_000), "--after=1700000000");
}
