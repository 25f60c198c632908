//! Classification of a wrapped command's result (clean, warnings, failure)
//! and the one-line summaries of cargo test, clippy and fmt output.
use vstd::prelude::*;
use vstd::utf8::*;
use crate::text::{
    boundary, bytes_to_string, contains, contains_bytes, count_lines_with_prefix,
    count_lines_with_prefix_exec, decimal, ends_with, lemma_after_ascii, lemma_ascii_valid,
    line_bounds, line_end, matches_at, nl_from, push_decimal_valid, push_signed_decimal_valid,
    push_span, push_str_bytes, signed_decimal, starts_with, utf8,
};

verus! {

broadcast use vstd::utf8::group_utf8_lib;

// ---------------------------------------------------------------------------
// Types
// ---------------------------------------------------------------------------

/// Classification of subprocess result.
#[derive(Debug, Clone, Copy, PartialEq, Eq, Structural)]
pub enum ResultClass {
    /// Exit 0, no warnings.
    Clean,
    /// Exit 0, but warnings in stderr.
    Warn,
    /// Exit != 0.
    Fail,
}

/// Parsed output summary.
#[derive(Debug, Clone)]
pub struct OutputSummary {
    pub class: ResultClass,
    pub category: &'static str,
    /// Confidence of the observation, in hundredths.
    pub confidence_percent: u64,
    pub body: String,
}

// ---------------------------------------------------------------------------
// Specifications
// ---------------------------------------------------------------------------

/// `b` contains the UTF-8 bytes of `lit`.
pub open spec fn mentions(b: Seq<u8>, lit: Seq<char>) -> bool {
    contains(b, utf8(lit))
}

/// Stderr holds warnings: `warning:` occurs, and `0 warnings` does not.
pub open spec fn spec_has_warnings(b: Seq<u8>) -> bool {
    mentions(b, "warning:"@) && !mentions(b, "0 warnings"@)
}

/// The clippy summary of stderr, from its counts of lines that start with
/// `warning:` and with `error`.
pub open spec fn spec_clippy_summary(b: Seq<u8>) -> Seq<u8> {
    let w = count_lines_with_prefix(b, 0, utf8("warning:"@));
    let e = count_lines_with_prefix(b, 0, utf8("error"@));
    if e > 0 {
        utf8("cargo clippy: "@) + decimal(e as nat) + utf8(" errors, "@) + decimal(w as nat) + utf8(
            " warnings"@,
        )
    } else if w > 0 {
        utf8("cargo clippy: "@) + decimal(w as nat) + utf8(" warnings"@)
    } else {
        utf8("cargo clippy: clean"@)
    }
}

/// The fmt summary of stdout, from its count of lines that start with
/// `Diff in`.
pub open spec fn spec_fmt_summary(b: Seq<u8>) -> Seq<u8> {
    let d = count_lines_with_prefix(b, 0, utf8("Diff in"@));
    if d > 0 {
        utf8("cargo fmt: "@) + decimal(d as nat) + utf8(" files need formatting"@)
    } else {
        utf8("cargo fmt: formatting issues detected"@)
    }
}

/// The first line of `c[i..]` that holds `test result: FAILED`, as a range.
pub open spec fn result_line_from(c: Seq<u8>, i: int) -> Option<(int, int)>
    decreases c.len() - i,
{
    if i < 0 || i >= c.len() {
        None
    } else {
        let e = nl_from(c, i);
        let end = line_end(c, i);
        if contains(c.subrange(i, end), utf8("test result: FAILED"@)) {
            Some((i, end))
        } else if e < c.len() && e + 1 > i {
            result_line_from(c, e + 1)
        } else {
            None
        }
    }
}

/// A line reports a failed test: it starts with `test ` and ends with
/// `... FAILED`.
pub open spec fn is_failed_line(l: Seq<u8>) -> bool {
    starts_with(l, utf8("test "@)) && ends_with(l, utf8("... FAILED"@))
}

/// The test name of a failed-test line `c[s..end]`: the text between `test `
/// and ` ... FAILED`, or the whole line when it does not end with
/// ` ... FAILED`.
pub open spec fn failed_name(c: Seq<u8>, s: int, end: int) -> (int, int) {
    if ends_with(c.subrange(s + 5, end), utf8(" ... FAILED"@)) {
        (s + 5, end - 11)
    } else {
        (s, end)
    }
}

/// The names of failed tests reported in the lines of `c[i..]`, as ranges.
pub open spec fn failed_from(c: Seq<u8>, i: int) -> Seq<(int, int)>
    decreases c.len() - i,
{
    if i < 0 || i >= c.len() {
        Seq::empty()
    } else {
        let e = nl_from(c, i);
        let end = line_end(c, i);
        let here: Seq<(int, int)> = if is_failed_line(c.subrange(i, end)) {
            seq![failed_name(c, i, end)]
        } else {
            Seq::empty()
        };
        if e < c.len() && e + 1 > i {
            here + failed_from(c, e + 1)
        } else {
            here
        }
    }
}

/// The first `n` items of `s`, or all of them when there are fewer.
pub open spec fn first_n<A>(s: Seq<A>, n: int) -> Seq<A> {
    if s.len() <= n {
        s
    } else {
        s.subrange(0, n)
    }
}

/// The parts joined with `sep` between them.
pub open spec fn join(parts: Seq<Seq<u8>>, sep: Seq<u8>) -> Seq<u8>
    decreases parts.len(),
{
    if parts.len() == 0 {
        Seq::empty()
    } else if parts.len() == 1 {
        parts[0]
    } else {
        join(parts.drop_last(), sep) + sep + parts.last()
    }
}

/// The bytes of the ranges of `c`.
pub open spec fn range_bytes(c: Seq<u8>, r: Seq<(int, int)>) -> Seq<Seq<u8>> {
    r.map_values(|p: (int, int)| c.subrange(p.0, p.1))
}

/// The test-failure summary of combined output `c`: its result line (or
/// `tests failed`), then up to ten failed test names.
pub open spec fn spec_test_failure_summary(c: Seq<u8>) -> Seq<u8> {
    let r = match result_line_from(c, 0) {
        Some(p) => c.subrange(p.0, p.1),
        None => utf8("tests failed"@),
    };
    let names = range_bytes(c, first_n(failed_from(c, 0), 10));
    if names.len() == 0 {
        utf8("cargo test: "@) + r
    } else {
        utf8("cargo test: "@) + r + utf8(" | Failed: "@) + join(names, utf8(", "@))
    }
}

/// Stdout and stderr combined with a newline between them.
pub open spec fn combined_output(stdout: Seq<char>, stderr: Seq<char>) -> Seq<u8> {
    utf8(stdout) + seq![0x0au8] + utf8(stderr)
}

/// The summary of a result: its class, category, confidence (in
/// hundredths) and body.
pub open spec fn spec_classify(exit_code: int, cmd: Seq<char>, stdout: Seq<char>, stderr: Seq<char>) -> (
    ResultClass,
    Seq<char>,
    int,
    Seq<u8>,
) {
    let c = utf8(cmd);
    if exit_code != 0 {
        let body = if mentions(c, "cargo test"@) {
            spec_test_failure_summary(combined_output(stdout, stderr))
        } else if mentions(c, "cargo clippy"@) {
            spec_clippy_summary(utf8(stderr))
        } else if mentions(c, "cargo fmt"@) {
            spec_fmt_summary(utf8(stdout))
        } else {
            utf8("Command `"@) + c + utf8("` failed (exit "@) + signed_decimal(exit_code) + utf8(
                ")"@,
            )
        };
        (ResultClass::Fail, "build-failure"@, 95, body)
    } else if spec_has_warnings(utf8(stderr)) {
        let body = if mentions(c, "cargo clippy"@) {
            spec_clippy_summary(utf8(stderr))
        } else {
            utf8("Command `"@) + c + utf8("` succeeded with warnings"@)
        };
        (ResultClass::Warn, "build-warning"@, 70, body)
    } else {
        (ResultClass::Clean, "observation"@, 100, Seq::empty())
    }
}

/// The view of a summary.
pub open spec fn summary_view(s: OutputSummary) -> (ResultClass, Seq<char>, int, Seq<u8>) {
    (s.class, s.category@, s.confidence_percent as int, utf8(s.body@))
}

// ---------------------------------------------------------------------------
// Executable functions
// ---------------------------------------------------------------------------

fn has_str(b: &[u8], lit: &str) -> (r: bool)
    ensures
        r == mentions(b@, lit@),
{
    contains_bytes(b, lit.as_bytes())
}

/// Check if stderr contains warning patterns.
pub fn has_warnings(stderr: &str) -> (r: bool)
    ensures
        r == spec_has_warnings(utf8(stderr@)),
{
    let b = stderr.as_bytes();
    has_str(b, "warning:") && !has_str(b, "0 warnings")
}

fn count_lines(b: &[u8], p: &str) -> (n: u64)
    ensures
        n == count_lines_with_prefix(b@, 0, utf8(p@)),
{
    let n = count_lines_with_prefix_exec(b, p.as_bytes());
    n as u64
}

/// Parse cargo clippy output for a concise summary.
pub fn parse_cargo_clippy(stderr: &str) -> (r: String)
    ensures
        utf8(r@) == spec_clippy_summary(utf8(stderr@)),
{
    let b = stderr.as_bytes();
    let warning_count = count_lines(b, "warning:");
    let error_count = count_lines(b, "error");
    let mut v: Vec<u8> = Vec::new();
    proof {
        lemma_ascii_valid(v@);
    }
    if error_count > 0 {
        push_str_bytes(&mut v, "cargo clippy: ");
        push_decimal_valid(&mut v, error_count);
        push_str_bytes(&mut v, " errors, ");
        push_decimal_valid(&mut v, warning_count);
        push_str_bytes(&mut v, " warnings");
    } else if warning_count > 0 {
        push_str_bytes(&mut v, "cargo clippy: ");
        push_decimal_valid(&mut v, warning_count);
        push_str_bytes(&mut v, " warnings");
    } else {
        push_str_bytes(&mut v, "cargo clippy: clean");
    }
    assert(v@ =~= spec_clippy_summary(b@));
    bytes_to_string(v)
}

/// Parse cargo fmt output for a concise summary.
pub fn parse_cargo_fmt(stdout: &str) -> (r: String)
    ensures
        utf8(r@) == spec_fmt_summary(utf8(stdout@)),
{
    let b = stdout.as_bytes();
    let diff_count = count_lines(b, "Diff in");
    let mut v: Vec<u8> = Vec::new();
    proof {
        lemma_ascii_valid(v@);
    }
    if diff_count > 0 {
        push_str_bytes(&mut v, "cargo fmt: ");
        push_decimal_valid(&mut v, diff_count);
        push_str_bytes(&mut v, " files need formatting");
    } else {
        push_str_bytes(&mut v, "cargo fmt: formatting issues detected");
    }
    assert(v@ =~= spec_fmt_summary(b@));
    bytes_to_string(v)
}

/// Stdout and stderr combined with a newline between them.
fn combined_exec(stdout: &str, stderr: &str) -> (c: Vec<u8>)
    ensures
        c@ == combined_output(stdout@, stderr@),
        valid_utf8(c@),
{
    let mut v: Vec<u8> = Vec::new();
    proof {
        lemma_ascii_valid(v@);
    }
    push_str_bytes(&mut v, stdout);
    proof {
        lemma_ascii_valid(seq![0x0au8]);
        valid_utf8_concat(v@, seq![0x0au8]);
    }
    let ghost before = v@;
    v.push(0x0au8);
    assert(v@ =~= before + seq![0x0au8]);
    push_str_bytes(&mut v, stderr);
    assert(v@ =~= combined_output(stdout@, stderr@));
    v
}

/// The first line holding `test result: FAILED`.
fn find_result_line(c: &[u8]) -> (r: Option<(usize, usize)>)
    requires
        valid_utf8(c@),
    ensures
        match r {
            Some(p) => result_line_from(c@, 0) == Some((p.0 as int, p.1 as int)) && p.0 <= p.1
                <= c@.len() && boundary(c@, p.0 as int) && boundary(c@, p.1 as int),
            None => result_line_from(c@, 0) is None,
        },
{
    let mut i: usize = 0;
    proof {
        if c@.len() > 0 {
            crate::text::lemma_first_not_continuation(c@);
        }
    }
    while i < c.len()
        invariant
            i <= c@.len(),
            valid_utf8(c@),
            boundary(c@, i as int),
            result_line_from(c@, i as int) == result_line_from(c@, 0),
        decreases c@.len() - i,
    {
        let (e, end) = line_bounds(c, i);
        let line = vstd::slice::slice_subrange(c, i, end);
        if has_str(line, "test result: FAILED") {
            return Some((i, end));
        }
        if e < c.len() {
            i = e + 1;
        } else {
            return None;
        }
    }
    None
}

/// The name range of a failed-test line `c[s..end]`, cut at boundaries.
fn failed_name_exec(c: &[u8], s: usize, end: usize) -> (r: (usize, usize))
    requires
        valid_utf8(c@),
        s <= end <= c@.len(),
        boundary(c@, s as int),
        boundary(c@, end as int),
        is_failed_line(c@.subrange(s as int, end as int)),
    ensures
        (r.0 as int, r.1 as int) == failed_name(c@, s as int, end as int),
        r.0 <= r.1 <= c@.len(),
        boundary(c@, r.0 as int),
        boundary(c@, r.1 as int),
{
    proof {
        reveal_strlit("test ");
        reveal_strlit(" ... FAILED");
        crate::text::lemma_ascii_chars("test "@);
        crate::text::lemma_ascii_chars(" ... FAILED"@);
        let l = c@.subrange(s as int, end as int);
        assert(l.subrange(0, 5)[4] == c@[s + 4]);
        assert(utf8("test "@)[4] < 0x80);
        lemma_after_ascii(c@, s + 4);
    }
    let a = s + 5;
    let suffix = " ... FAILED".as_bytes();
    if end - a >= suffix.len() && matches_at(c, suffix, end - suffix.len()) {
        proof {
            assert(c@.subrange(end - 11, end as int)[0] == c@[end - 11]);
            assert(utf8(" ... FAILED"@)[0] < 0x80);
            lemma_after_ascii(c@, end - 11);
            let t = c@.subrange(a as int, end as int);
            assert(t.subrange(t.len() - 11, t.len() as int) =~= c@.subrange(end - 11, end as int));
        }
        (a, end - suffix.len())
    } else {
        proof {
            let t = c@.subrange(a as int, end as int);
            if ends_with(t, utf8(" ... FAILED"@)) {
                assert(t.subrange(t.len() - 11, t.len() as int) =~= c@.subrange(end - 11, end as int));
            }
        }
        (s, end)
    }
}

/// The view of name ranges.
pub open spec fn ranges_view(v: Seq<(usize, usize)>) -> Seq<(int, int)> {
    v.map_values(|p: (usize, usize)| (p.0 as int, p.1 as int))
}

/// The names of the failed tests, in order.
fn collect_failed(c: &[u8]) -> (r: Vec<(usize, usize)>)
    requires
        valid_utf8(c@),
    ensures
        ranges_view(r@) == failed_from(c@, 0),
        forall|k: int|
            0 <= k < r@.len() ==> (#[trigger] r@[k]).0 <= r@[k].1 <= c@.len() && boundary(
                c@,
                r@[k].0 as int,
            ) && boundary(c@, r@[k].1 as int),
{
    let mut out: Vec<(usize, usize)> = Vec::new();
    let mut i: usize = 0;
    proof {
        if c@.len() > 0 {
            crate::text::lemma_first_not_continuation(c@);
        }
    }
    let suffix = "... FAILED".as_bytes();
    let prefix = "test ".as_bytes();
    assert(ranges_view(out@) =~= Seq::<(int, int)>::empty());
    while i < c.len()
        invariant
            i <= c@.len(),
            valid_utf8(c@),
            boundary(c@, i as int),
            prefix@ == utf8("test "@),
            suffix@ == utf8("... FAILED"@),
            ranges_view(out@) + failed_from(c@, i as int) == failed_from(c@, 0),
            forall|k: int|
                0 <= k < out@.len() ==> (#[trigger] out@[k]).0 <= out@[k].1 <= c@.len()
                    && boundary(c@, out@[k].0 as int) && boundary(c@, out@[k].1 as int),
        decreases c@.len() - i,
    {
        let (e, end) = line_bounds(c, i);
        let line = vstd::slice::slice_subrange(c, i, end);
        let ghost before = out@;
        let ghost rest = failed_from(c@, i as int);
        let is_failed = matches_at(line, prefix, 0) && suffix.len() <= line.len() && matches_at(
            line,
            suffix,
            line.len() - suffix.len(),
        );
        assert(is_failed == is_failed_line(line@));
        if is_failed {
            let nm = failed_name_exec(c, i, end);
            out.push(nm);
            assert(ranges_view(out@) =~= ranges_view(before).push((nm.0 as int, nm.1 as int)));
        }
        if e < c.len() {
            i = e + 1;
            assert(ranges_view(out@) + failed_from(c@, i as int) =~= ranges_view(before) + rest);
        } else {
            i = c.len();
            assert(failed_from(c@, i as int) =~= Seq::<(int, int)>::empty());
            assert(ranges_view(out@) + failed_from(c@, i as int) =~= ranges_view(before) + rest);
        }
    }
    assert(failed_from(c@, i as int) =~= Seq::<(int, int)>::empty());
    assert(ranges_view(out@) =~= ranges_view(out@) + failed_from(c@, i as int));
    out
}

/// Parse cargo test failure output for a concise summary: the line holding
/// `test result: FAILED` and the names of up to ten failed tests.
pub fn parse_cargo_test_failure(stdout: &str, stderr: &str) -> (r: String)
    ensures
        utf8(r@) == spec_test_failure_summary(combined_output(stdout@, stderr@)),
{
    let c = combined_exec(stdout, stderr);
    let cs = c.as_slice();
    assert(cs@ == c@);
    let result = find_result_line(cs);
    let failed = collect_failed(cs);
    let mut v: Vec<u8> = Vec::new();
    proof {
        lemma_ascii_valid(v@);
    }
    push_str_bytes(&mut v, "cargo test: ");
    match result {
        Some(p) => {
            push_span(&mut v, cs, p.0, p.1);
        },
        None => {
            push_str_bytes(&mut v, "tests failed");
        },
    }
    let ghost head = v@;
    let ghost names = range_bytes(c@, first_n(failed_from(c@, 0), 10));
    let n = if failed.len() < 10 {
        failed.len()
    } else {
        10
    };
    assert(names.len() == n);
    if n > 0 {
        push_str_bytes(&mut v, " | Failed: ");
        let ghost mid = v@;
        let mut k: usize = 0;
        assert(names.subrange(0, 0) =~= Seq::<Seq<u8>>::empty());
        while k < n
            invariant
                k <= n <= failed@.len(),
                n == names.len(),
                cs@ == c@,
                valid_utf8(v@),
                valid_utf8(c@),
                names == range_bytes(c@, first_n(ranges_view(failed@), 10)),
                forall|j: int|
                    0 <= j < failed@.len() ==> (#[trigger] failed@[j]).0 <= failed@[j].1
                        <= c@.len() && boundary(c@, failed@[j].0 as int) && boundary(
                        c@,
                        failed@[j].1 as int,
                    ),
                v@ == mid + join(names.subrange(0, k as int), utf8(", "@)),
            decreases n - k,
        {
            let ghost parts = names.subrange(0, k + 1);
            assert(parts.drop_last() =~= names.subrange(0, k as int));
            assert(names[k as int] == c@.subrange(failed@[k as int].0 as int, failed@[k as int].1 as int));
            let ghost v0 = v@;
            if k > 0 {
                push_str_bytes(&mut v, ", ");
            }
            let ghost v1 = v@;
            let p = failed[k];
            push_span(&mut v, cs, p.0, p.1);
            proof {
                assert(v@ == v1 + parts.last());
                if k == 0 {
                    assert(v1 == v0);
                    assert(join(names.subrange(0, 0), utf8(", "@)) =~= Seq::<u8>::empty());
                    assert(v@ =~= mid + parts[0]);
                } else {
                    assert(v1 == v0 + utf8(", "@));
                    assert(v@ =~= mid + (join(names.subrange(0, k as int), utf8(", "@)) + utf8(", "@)
                        + parts.last()));
                }
            }
            k = k + 1;
        }
        assert(names.subrange(0, n as int) =~= names);
    }
    assert(v@ =~= spec_test_failure_summary(c@));
    bytes_to_string(v)
}

fn push_command_text(v: &mut Vec<u8>, cmd: &str, exit_code: i32, failed: bool)
    requires
        valid_utf8(old(v)@),
    ensures
        valid_utf8(final(v)@),
        final(v)@ == old(v)@ + if failed {
            utf8("Command `"@) + utf8(cmd@) + utf8("` failed (exit "@) + signed_decimal(
                exit_code as int,
            ) + utf8(")"@)
        } else {
            utf8("Command `"@) + utf8(cmd@) + utf8("` succeeded with warnings"@)
        },
{
    let ghost start = v@;
    push_str_bytes(v, "Command `");
    push_str_bytes(v, cmd);
    if failed {
        push_str_bytes(v, "` failed (exit ");
        push_signed_decimal_valid(v, exit_code as i64);
        push_str_bytes(v, ")");
    } else {
        push_str_bytes(v, "` succeeded with warnings");
    }
    assert(v@ =~= start + if failed {
        utf8("Command `"@) + utf8(cmd@) + utf8("` failed (exit "@) + signed_decimal(
            exit_code as int,
        ) + utf8(")"@)
    } else {
        utf8("Command `"@) + utf8(cmd@) + utf8("` succeeded with warnings"@)
    });
}

/// Classify subprocess output into Clean/Warn/Fail with a summary body: a
/// non-zero exit is a failure, a zero exit with warnings on stderr a
/// warning, anything else clean.
pub fn classify_result(exit_code: i32, cmd: &str, stdout: &str, stderr: &str) -> (s: OutputSummary)
    ensures
        summary_view(s) == spec_classify(exit_code as int, cmd@, stdout@, stderr@),
{
    let c = cmd.as_bytes();
    if exit_code != 0 {
        let body = if has_str(c, "cargo test") {
            parse_cargo_test_failure(stdout, stderr)
        } else if has_str(c, "cargo clippy") {
            parse_cargo_clippy(stderr)
        } else if has_str(c, "cargo fmt") {
            parse_cargo_fmt(stdout)
        } else {
            let mut v: Vec<u8> = Vec::new();
            proof {
                lemma_ascii_valid(v@);
            }
            push_command_text(&mut v, cmd, exit_code, true);
            bytes_to_string(v)
        };
        OutputSummary {
            class: ResultClass::Fail,
            category: "build-failure",
            confidence_percent: 95,
            body,
        }
    } else if has_warnings(stderr) {
        let body = if has_str(c, "cargo clippy") {
            parse_cargo_clippy(stderr)
        } else {
            let mut v: Vec<u8> = Vec::new();
            proof {
                lemma_ascii_valid(v@);
            }
            push_command_text(&mut v, cmd, exit_code, false);
            bytes_to_string(v)
        };
        OutputSummary {
            class: ResultClass::Warn,
            category: "build-warning",
            confidence_percent: 70,
            body,
        }
    } else {
        let body = String::new();
        assert(utf8(body@) =~= Seq::<u8>::empty());
        OutputSummary { class: ResultClass::Clean, category: "observation", confidence_percent: 100, body }
    }
}

// ---------------------------------------------------------------------------
// Laws
// ---------------------------------------------------------------------------

/// A clean result is exactly a zero exit without warnings on stderr, and a
/// clean result carries no body to observe.
pub proof fn law_clean_means_no_observation(
    exit_code: int,
    cmd: Seq<char>,
    stdout: Seq<char>,
    stderr: Seq<char>,
)
    ensures
        (spec_classify(exit_code, cmd, stdout, stderr).0 == ResultClass::Clean) <==> (exit_code == 0
            && !spec_has_warnings(utf8(stderr))),
        spec_classify(exit_code, cmd, stdout, stderr).0 == ResultClass::Clean ==> spec_classify(
            exit_code,
            cmd,
            stdout,
            stderr,
        ).3.len() == 0,
{
}

/// Every failed invocation (non-zero exit) is classified as a failure, with
/// the `build-failure` category, whatever its output.
pub proof fn law_failure_is_observed(
    exit_code: int,
    cmd: Seq<char>,
    stdout: Seq<char>,
    stderr: Seq<char>,
)
    requires
        exit_code != 0,
    ensures
        spec_classify(exit_code, cmd, stdout, stderr).0 == ResultClass::Fail,
        spec_classify(exit_code, cmd, stdout, stderr).1 == "build-failure"@,
{
}

/// Each part of a join occurs in it.
proof fn lemma_join_has_part(parts: Seq<Seq<u8>>, sep: Seq<u8>, k: int)
    requires
        0 <= k < parts.len(),
    ensures
        contains(join(parts, sep), parts[k]),
    decreases parts.len(),
{
    let j = join(parts, sep);
    if parts.len() == 1 {
        assert(j.subrange(0, parts[0].len() as int) =~= parts[0]);
        assert(crate::text::occurs_at(j, parts[k], 0));
    } else {
        let front = join(parts.drop_last(), sep);
        assert(j == front + sep + parts.last());
        if k == parts.len() - 1 {
            let off: int = (front.len() + sep.len()) as int;
            assert(j.subrange(off, off + parts[k].len()) =~= parts[k]);
            assert(crate::text::occurs_at(j, parts[k], off));
        } else {
            lemma_join_has_part(parts.drop_last(), sep, k);
            assert(parts.drop_last()[k] == parts[k]);
            let i = choose|i: int| #[trigger] crate::text::occurs_at(front, parts[k], i);
            assert(j.subrange(i, i + parts[k].len()) =~= front.subrange(i, i + parts[k].len()));
            assert(crate::text::occurs_at(j, parts[k], i));
        }
    }
}

/// What occurs in `b` occurs in `a + b + c`.
proof fn lemma_contains_within(a: Seq<u8>, b: Seq<u8>, c: Seq<u8>, n: Seq<u8>)
    requires
        contains(b, n),
    ensures
        contains(a + b + c, n),
{
    let i = choose|i: int| #[trigger] crate::text::occurs_at(b, n, i);
    let h = a + b + c;
    assert(h.subrange(a.len() + i, a.len() + i + n.len()) =~= b.subrange(i, i + n.len()));
    assert(crate::text::occurs_at(h, n, a.len() + i));
}

/// A summary `pre + r`, followed when there are names by ` | Failed: ` and
/// the names joined by `, `, starts with `pre` and holds `r` and each name.
proof fn lemma_summary_shape(pre: Seq<u8>, r: Seq<u8>, names: Seq<Seq<u8>>, body: Seq<u8>)
    requires
        body == if names.len() == 0 {
            pre + r
        } else {
            pre + r + utf8(" | Failed: "@) + join(names, utf8(", "@))
        },
    ensures
        starts_with(body, pre),
        contains(body, r),
        forall|k: int| 0 <= k < names.len() ==> contains(body, #[trigger] names[k]),
{
    assert(contains(r, r)) by {
        assert(r.subrange(0, r.len() as int) =~= r);
        assert(crate::text::occurs_at(r, r, 0));
    }
    if names.len() == 0 {
        lemma_contains_within(pre, r, Seq::empty(), r);
        assert(pre + r + Seq::<u8>::empty() =~= body);
    } else {
        let tail = utf8(" | Failed: "@) + join(names, utf8(", "@));
        assert(body =~= pre + r + tail);
        lemma_contains_within(pre, r, tail, r);
        assert forall|k: int| 0 <= k < names.len() implies contains(body, #[trigger] names[k]) by {
            lemma_join_has_part(names, utf8(", "@), k);
            lemma_contains_within(pre + r + utf8(" | Failed: "@), join(names, utf8(", "@)), Seq::empty(), names[k]);
            assert(pre + r + utf8(" | Failed: "@) + join(names, utf8(", "@)) + Seq::<u8>::empty() =~= body);
        }
    }
    assert(body.subrange(0, pre.len() as int) =~= pre);
}

/// What a test-failure summary of output `c` holds: it starts with
/// `cargo test: `, holds the result line (or `tests failed`), and names each
/// of the first ten failed tests.
proof fn lemma_test_summary_facts(c: Seq<u8>)
    ensures
        ({
            let body = spec_test_failure_summary(c);
            let names = range_bytes(c, first_n(failed_from(c, 0), 10));
            &&& starts_with(body, utf8("cargo test: "@))
            &&& forall|k: int| 0 <= k < names.len() ==> contains(body, #[trigger] names[k])
            &&& match result_line_from(c, 0) {
                Some(p) => contains(body, c.subrange(p.0, p.1)),
                None => contains(body, utf8("tests failed"@)),
            }
        }),
{
    let r = match result_line_from(c, 0) {
        Some(p) => c.subrange(p.0, p.1),
        None => utf8("tests failed"@),
    };
    lemma_summary_shape(
        utf8("cargo test: "@),
        r,
        range_bytes(c, first_n(failed_from(c, 0), 10)),
        spec_test_failure_summary(c),
    );
}

/// A failed `cargo test` run is summarized from its output (stdout, a
/// newline, stderr): the body starts with `cargo test: `, holds the test
/// result line (or `tests failed` when there is none), and names each of
/// the first ten failed tests, a failed test being a line `test NAME ...
/// FAILED`.
pub proof fn law_test_failure_names_failed_tests(
    exit_code: int,
    cmd: Seq<char>,
    stdout: Seq<char>,
    stderr: Seq<char>,
)
    requires
        exit_code != 0,
        mentions(utf8(cmd), "cargo test"@),
    ensures
        ({
            let body = spec_classify(exit_code, cmd, stdout, stderr).3;
            let c = combined_output(stdout, stderr);
            let names = range_bytes(c, first_n(failed_from(c, 0), 10));
            &&& starts_with(body, utf8("cargo test: "@))
            &&& forall|k: int| 0 <= k < names.len() ==> contains(body, #[trigger] names[k])
            &&& match result_line_from(c, 0) {
                Some(p) => contains(body, c.subrange(p.0, p.1)),
                None => contains(body, utf8("tests failed"@)),
            }
        }),
{
    let c = combined_output(stdout, stderr);
    assert(spec_classify(exit_code, cmd, stdout, stderr).3 == spec_test_failure_summary(c));
    lemma_test_summary_facts(c);
}

/// The body of a failure names the tool whose output it summarizes: a
/// failed `cargo test` gives a `cargo test: ` summary, else a failed
/// `cargo clippy` a `cargo clippy: ` summary, else a failed `cargo fmt` a
/// `cargo fmt: ` summary; any other failed command is reported with its
/// command line. A successful `cargo clippy` run with warnings gives a
/// `cargo clippy: ` summary.
pub proof fn law_summary_names_the_tool(
    exit_code: int,
    cmd: Seq<char>,
    stdout: Seq<char>,
    stderr: Seq<char>,
)
    ensures
        ({
            let c = utf8(cmd);
            let r = spec_classify(exit_code, cmd, stdout, stderr);
            &&& exit_code != 0 && mentions(c, "cargo test"@) ==> starts_with(r.3, utf8("cargo test: "@))
            &&& exit_code != 0 && !mentions(c, "cargo test"@) && mentions(c, "cargo clippy"@)
                ==> starts_with(r.3, utf8("cargo clippy: "@))
            &&& exit_code != 0 && !mentions(c, "cargo test"@) && !mentions(c, "cargo clippy"@)
                && mentions(c, "cargo fmt"@) ==> starts_with(r.3, utf8("cargo fmt: "@))
            &&& exit_code != 0 && !mentions(c, "cargo test"@) && !mentions(c, "cargo clippy"@)
                && !mentions(c, "cargo fmt"@) ==> r.3 == utf8("Command `"@) + c + utf8(
                "` failed (exit "@,
            ) + signed_decimal(exit_code) + utf8(")"@)
            &&& r.0 == ResultClass::Warn && mentions(c, "cargo clippy"@) ==> starts_with(
                r.3,
                utf8("cargo clippy: "@),
            )
        }),
{
    let c = utf8(cmd);
    let r = spec_classify(exit_code, cmd, stdout, stderr);
    if exit_code != 0 && mentions(c, "cargo test"@) {
        law_test_failure_names_failed_tests(exit_code, cmd, stdout, stderr);
    }
    if (exit_code != 0 && !mentions(c, "cargo test"@) && mentions(c, "cargo clippy"@)) || (r.0
        == ResultClass::Warn && mentions(c, "cargo clippy"@)) {
        lemma_clippy_prefix(utf8(stderr));
    }
    if exit_code != 0 && !mentions(c, "cargo test"@) && !mentions(c, "cargo clippy"@) && mentions(
        c,
        "cargo fmt"@,
    ) {
        lemma_fmt_prefix(utf8(stdout));
    }
}

/// Every clippy summary starts with `cargo clippy: `.
proof fn lemma_clippy_prefix(b: Seq<u8>)
    ensures
        starts_with(spec_clippy_summary(b), utf8("cargo clippy: "@)),
{
    let pre = utf8("cargo clippy: "@);
    let s = spec_clippy_summary(b);
    reveal_strlit("cargo clippy: clean");
    reveal_strlit("cargo clippy: ");
    reveal_strlit("clean");
    assert(utf8("cargo clippy: clean"@) =~= pre + utf8("clean"@)) by {
        assert("cargo clippy: clean"@ =~= "cargo clippy: "@ + "clean"@);
        crate::text::lemma_utf8_concat("cargo clippy: "@, "clean"@);
    }
    assert(s.subrange(0, pre.len() as int) =~= pre);
}

/// Every fmt summary starts with `cargo fmt: `.
proof fn lemma_fmt_prefix(b: Seq<u8>)
    ensures
        starts_with(spec_fmt_summary(b), utf8("cargo fmt: "@)),
{
    let pre = utf8("cargo fmt: "@);
    let s = spec_fmt_summary(b);
    reveal_strlit("cargo fmt: formatting issues detected");
    reveal_strlit("cargo fmt: ");
    reveal_strlit("formatting issues detected");
    assert(utf8("cargo fmt: formatting issues detected"@) =~= pre + utf8("formatting issues detected"@)) by {
        assert("cargo fmt: formatting issues detected"@ =~= "cargo fmt: "@ + "formatting issues detected"@);
        crate::text::lemma_utf8_concat("cargo fmt: "@, "formatting issues detected"@);
    }
    assert(s.subrange(0, pre.len() as int) =~= pre);
}

/// The class, category and confidence of every result: a failure is a
/// `build-failure` observation at 95, a zero exit with warnings on stderr a
/// `build-warning` at 70 (reported as the command having succeeded with
/// warnings unless it is a clippy run), and a clean run an `observation`
/// at 100.
pub proof fn law_class_fields(exit_code: int, cmd: Seq<char>, stdout: Seq<char>, stderr: Seq<char>)
    ensures
        ({
            let r = spec_classify(exit_code, cmd, stdout, stderr);
            let c = utf8(cmd);
            &&& exit_code != 0 ==> r.0 == ResultClass::Fail && r.1 == "build-failure"@ && r.2 == 95
            &&& exit_code == 0 && spec_has_warnings(utf8(stderr)) ==> r.0 == ResultClass::Warn && r.1
                == "build-warning"@ && r.2 == 70
            &&& exit_code == 0 && spec_has_warnings(utf8(stderr)) && !mentions(c, "cargo clippy"@)
                ==> r.3 == utf8("Command `"@) + c + utf8("` succeeded with warnings"@)
            &&& exit_code == 0 && !spec_has_warnings(utf8(stderr)) ==> r.0 == ResultClass::Clean && r.1
                == "observation"@ && r.2 == 100
        }),
{
}

} // verus!
