use braid::wrap::{
    classify_result, has_warnings, parse_cargo_clippy, parse_cargo_fmt, parse_cargo_test_failure,
    ResultClass,
};

#[test]
fn classify_clean_success() {
    let s = classify_result(0, "echo hello", "hello\n", "");
    assert_eq!(s.class, ResultClass::Clean);
}

#[test]
fn classify_failure() {
    let s = classify_result(1, "cargo test", "", "error: test failed");
    assert_eq!(s.class, ResultClass::Fail);
    assert_eq!(s.category, "build-failure");
    assert!((s.confidence_percent as f64 / 100.0 - 0.95).abs() < 0.01);
}

#[test]
fn classify_warnings() {
    let s = classify_result(0, "cargo clippy", "", "warning: unused variable\n");
    assert_eq!(s.class, ResultClass::Warn);
    assert_eq!(s.category, "build-warning");
}

#[test]
fn parse_test_failure_extracts_names() {
    let stdout = "test foo::bar ... ok\ntest foo::baz ... FAILED\n\ntest result: FAILED. 1 passed; 1 failed\n";
    let result = parse_cargo_test_failure(stdout, "");
    assert!(result.contains("foo::baz"));
    assert!(result.contains("FAILED"));
}

#[test]
fn no_warnings_when_zero_warnings() {
    assert!(!has_warnings("warning: 0 warnings emitted"));
    assert!(has_warnings("warning: unused variable `x`"));
}

#[test]
fn test_failure_summary_exact() {
    let stdout = "test a ... FAILED\ntest b ... ok\ntest c ... FAILED\ntest result: FAILED. 1 passed; 2 failed\n";
    assert_eq!(
        parse_cargo_test_failure(stdout, ""),
        "cargo test: test result: FAILED. 1 passed; 2 failed | Failed: a, c"
    );
    assert_eq!(parse_cargo_test_failure("", "boom"), "cargo test: tests failed");
}

#[test]
fn test_failure_keeps_whole_line_without_spaced_suffix() {
    let stdout = "test x... FAILED\n";
    assert_eq!(
        parse_cargo_test_failure(stdout, ""),
        "cargo test: tests failed | Failed: test x... FAILED"
    );
}

#[test]
fn test_failure_lists_at_most_ten_names() {
    let mut stdout = String::new();
    for i in 0..12 {
        stdout.push_str(&format!("test t{} ... FAILED\n", i));
    }
    let r = parse_cargo_test_failure(&stdout, "");
    assert!(r.ends_with("t8, t9"));
    assert!(!r.contains("t10"));
}

#[test]
fn clippy_and_fmt_summaries() {
    assert_eq!(parse_cargo_clippy("warning: a\nwarning: b\nerror[E1]: c\n"), "cargo clippy: 1 errors, 2 warnings");
    assert_eq!(parse_cargo_clippy("warning: a\n"), "cargo clippy: 1 warnings");
    assert_eq!(parse_cargo_clippy(""), "cargo clippy: clean");
    assert_eq!(parse_cargo_fmt("Diff in a.rs\nDiff in b.rs\n"), "cargo fmt: 2 files need formatting");
    assert_eq!(parse_cargo_fmt("other"), "cargo fmt: formatting issues detected");
}

#[test]
fn generic_failure_and_warning_bodies() {
    let s = classify_result(-3, "make all", "", "");
    assert_eq!(s.body, "Command `make all` failed (exit -3)");
    let w = classify_result(0, "make", "", "warning: x");
    assert_eq!(w.body, "Command `make` succeeded with warnings");
    assert_eq!(w.confidence_percent, 70);
    let c = classify_result(0, "make", "", "warning: 0 warnings");
    assert_eq!(c.class, ResultClass::Clean);
    assert_eq!(c.body, "");
    assert_eq!(c.category, "observation");
}
