//! Git context for auto-harvest: reading the output of `git log` and
//! `git rev-parse`, and formatting the context line.
use vstd::prelude::*;
use vstd::utf8::*;
use crate::text::{
    boundary, bytes_eq, bytes_to_string, decimal, lemma_after_ascii, lemma_ascii_valid,
    lemma_first_not_continuation, line_bounds, line_end, nl_from, parse_unsigned,
    parse_unsigned_exec, push_decimal_valid, push_span, push_str_bytes, trim_exec, trim_range, utf8,
};

verus! {

broadcast use vstd::utf8::group_utf8_lib;

// ---------------------------------------------------------------------------
// Types
// ---------------------------------------------------------------------------

/// A single git commit.
#[derive(Clone, Debug)]
pub struct CommitInfo {
    /// Abbreviated commit hash.
    pub hash: String,
    /// Commit subject line.
    pub subject: String,
    /// Author name.
    pub author: String,
    /// Unix timestamp.
    pub timestamp: u64,
}

/// Git context for a session: commits and file change statistics.
#[derive(Clone, Debug)]
pub struct GitContext {
    /// Commits since the given timestamp.
    pub commits: Vec<CommitInfo>,
    /// Total files changed.
    pub files_changed: usize,
    /// Total lines inserted.
    pub insertions: usize,
    /// Total lines deleted.
    pub deletions: usize,
    /// Current branch name.
    pub branch: Option<String>,
}

impl Default for GitContext {
    /// The empty context: no commits, no changes, no branch.
    fn default() -> (r: GitContext)
        ensures
            r.commits@.len() == 0,
            r.files_changed == 0,
            r.insertions == 0,
            r.deletions == 0,
            r.branch is None,
    {
        GitContext {
            commits: Vec::new(),
            files_changed: 0,
            insertions: 0,
            deletions: 0,
            branch: None,
        }
    }
}

// ---------------------------------------------------------------------------
// Formatting
// ---------------------------------------------------------------------------

/// The context line: empty without commits; else
/// `  git: N commits, F files (+I/-D)`, and with a branch
/// `  git: branch=B, ` followed by that text from its seventh byte on.
pub open spec fn spec_git_line(
    commits: int,
    files: int,
    ins: int,
    del: int,
    branch: Option<Seq<char>>,
) -> Seq<u8> {
    if commits == 0 {
        Seq::empty()
    } else {
        let base = utf8("  git: "@) + decimal(commits as nat) + utf8(" commits, "@) + decimal(
            files as nat,
        ) + utf8(" files (+"@) + decimal(ins as nat) + utf8("/-"@) + decimal(del as nat) + utf8(
            ")"@,
        );
        match branch {
            None => base,
            Some(b) => utf8("  git: branch="@) + utf8(b) + utf8(", "@) + base.subrange(
                6,
                base.len() as int,
            ),
        }
    }
}

/// The branch of a context as text.
pub open spec fn branch_view(b: Option<String>) -> Option<Seq<char>> {
    match b {
        Some(s) => Some(s@),
        None => None,
    }
}

/// Format git context for harvest output.
pub fn format_git_context(ctx: &GitContext) -> (r: String)
    ensures
        utf8(r@) == spec_git_line(
            ctx.commits@.len() as int,
            ctx.files_changed as int,
            ctx.insertions as int,
            ctx.deletions as int,
            branch_view(ctx.branch),
        ),
{
    if ctx.commits.len() == 0 {
        let r = String::new();
        assert(utf8(r@) =~= Seq::<u8>::empty());
        return r;
    }
    let mut base: Vec<u8> = Vec::new();
    proof {
        lemma_ascii_valid(base@);
    }
    push_str_bytes(&mut base, "  git: ");
    push_decimal_valid(&mut base, ctx.commits.len() as u64);
    push_str_bytes(&mut base, " commits, ");
    push_decimal_valid(&mut base, ctx.files_changed as u64);
    push_str_bytes(&mut base, " files (+");
    push_decimal_valid(&mut base, ctx.insertions as u64);
    push_str_bytes(&mut base, "/-");
    push_decimal_valid(&mut base, ctx.deletions as u64);
    push_str_bytes(&mut base, ")");
    let ghost base_spec = utf8("  git: "@) + decimal(ctx.commits@.len() as nat) + utf8(
        " commits, "@,
    ) + decimal(ctx.files_changed as nat) + utf8(" files (+"@) + decimal(ctx.insertions as nat)
        + utf8("/-"@) + decimal(ctx.deletions as nat) + utf8(")"@);
    assert(base@ =~= base_spec);
    match &ctx.branch {
        None => bytes_to_string(base),
        Some(branch) => {
            let mut v: Vec<u8> = Vec::new();
            proof {
                lemma_ascii_valid(v@);
            }
            push_str_bytes(&mut v, "  git: branch=");
            push_str_bytes(&mut v, branch.as_str());
            push_str_bytes(&mut v, ", ");
            proof {
                reveal_strlit("  git: ");
                crate::text::lemma_ascii_chars("  git: "@);
                assert(base@[5] == utf8("  git: "@)[5]);
                assert(base@[6] == utf8("  git: "@)[6]);
                lemma_after_ascii(base@, 5);
                lemma_after_ascii(base@, 6);
            }
            let ghost before = v@;
            push_span(&mut v, base.as_slice(), 6, base.len());
            assert(v@ =~= before + base_spec.subrange(6, base_spec.len() as int));
            bytes_to_string(v)
        },
    }
}

// ---------------------------------------------------------------------------
// git rev-parse output
// ---------------------------------------------------------------------------

/// The trimmed text of some output.
pub open spec fn trimmed(b: Seq<u8>) -> Seq<u8> {
    let (s, e) = trim_range(b, 0, b.len() as int);
    b.subrange(s, e)
}

/// The trimmed output as a string.
pub(crate) fn trimmed_exec(b: &[u8]) -> (r: String)
    requires
        valid_utf8(b@),
    ensures
        utf8(r@) == trimmed(b@),
{
    let (s, e) = trim_exec(b, 0, b.len());
    proof {
        if b@.len() > 0 {
            lemma_first_not_continuation(b@);
        }
        crate::text::lemma_trim_boundaries(b@, 0, b@.len() as int);
    }
    let mut v: Vec<u8> = Vec::new();
    proof {
        lemma_ascii_valid(v@);
    }
    push_span(&mut v, b, s, e);
    assert(v@ =~= trimmed(b@));
    bytes_to_string(v)
}

/// The repository root printed by `git rev-parse --show-toplevel`: the
/// trimmed output, unless it is empty.
pub fn root_from_output(stdout: &str) -> (r: Option<String>)
    ensures
        match r {
            Some(s) => trimmed(utf8(stdout@)).len() > 0 && utf8(s@) == trimmed(utf8(stdout@)),
            None => trimmed(utf8(stdout@)).len() == 0,
        },
{
    let root = trimmed_exec(stdout.as_bytes());
    if root.as_str().as_bytes().len() == 0 {
        None
    } else {
        Some(root)
    }
}

/// The branch printed by `git rev-parse --abbrev-ref HEAD`: the trimmed
/// output, unless it is empty or `HEAD` (a detached head).
pub fn branch_from_output(stdout: &str) -> (r: Option<String>)
    ensures
        match r {
            Some(s) => trimmed(utf8(stdout@)).len() > 0 && trimmed(utf8(stdout@)) != utf8(
                "HEAD"@,
            ) && utf8(s@) == trimmed(utf8(stdout@)),
            None => trimmed(utf8(stdout@)).len() == 0 || trimmed(utf8(stdout@)) == utf8("HEAD"@),
        },
{
    let branch = trimmed_exec(stdout.as_bytes());
    let b = branch.as_str().as_bytes();
    let head = "HEAD".as_bytes();
    if b.len() == 0 || crate::text::matches_at(b, head, 0) && b.len() == head.len() {
        proof {
            if b@.len() > 0 {
                assert(b@ =~= b@.subrange(0, head@.len() as int));
            }
        }
        None
    } else {
        proof {
            if b@ == head@ {
                assert(b@.subrange(0, head@.len() as int) =~= b@);
            }
        }
        Some(branch)
    }
}

/// Whether `since` is a real Unix timestamp (after 2000-01-01) rather than
/// an old sequential wall time.
pub open spec fn spec_uses_timestamp(since: u64) -> bool {
    since > 946_684_800
}

/// The `git log` filter for commits since `since`: `--after=SINCE` for a
/// real timestamp, else `--max-count=50` for a recent window.
pub fn log_filter(since: u64) -> (r: String)
    ensures
        utf8(r@) == if spec_uses_timestamp(since) {
            utf8("--after="@) + decimal(since as nat)
        } else {
            utf8("--max-count=50"@)
        },
{
    let mut v: Vec<u8> = Vec::new();
    proof {
        lemma_ascii_valid(v@);
    }
    if since > 946_684_800 {
        push_str_bytes(&mut v, "--after=");
        push_decimal_valid(&mut v, since);
    } else {
        push_str_bytes(&mut v, "--max-count=50");
    }
    bytes_to_string(v)
}

// ---------------------------------------------------------------------------
// git log output
// ---------------------------------------------------------------------------

/// The first position in `[i, e)` holding byte `c`, or `e`.
pub open spec fn sep_end(b: Seq<u8>, i: int, e: int, c: u8) -> int
    decreases e - i,
{
    if i >= e {
        e
    } else if b[i] == c {
        i
    } else {
        sep_end(b, i + 1, e, c)
    }
}

proof fn lemma_sep_end(b: Seq<u8>, i: int, e: int, c: u8)
    requires
        0 <= i <= e <= b.len(),
    ensures
        i <= sep_end(b, i, e, c) <= e,
        sep_end(b, i, e, c) < e ==> b[sep_end(b, i, e, c)] == c,
        forall|k: int| i <= k < sep_end(b, i, e, c) ==> b[k] != c,
    decreases e - i,
{
    if i < e && b[i] != c {
        lemma_sep_end(b, i + 1, e, c);
    }
}

fn sep_end_exec(b: &[u8], i: usize, e: usize, c: u8) -> (r: usize)
    requires
        i <= e <= b@.len(),
    ensures
        r == sep_end(b@, i as int, e as int, c),
        i <= r <= e,
        r < e ==> b@[r as int] == c,
{
    proof {
        lemma_sep_end(b@, i as int, e as int, c);
    }
    let mut k = i;
    while k < e && b[k] != c
        invariant
            i <= k <= e <= b@.len(),
            sep_end(b@, k as int, e as int, c) == sep_end(b@, i as int, e as int, c),
        decreases e - k,
    {
        k = k + 1;
    }
    k
}

/// The ends of the first four `sep`-separated fields of `b[s..e]`, when it
/// has at least four fields: `(z1, z2, z3, z4)`, the fields being
/// `[s, z1)`, `(z1, z2)`, `(z2, z3)` and `(z3, z4)`.
pub open spec fn four_fields(b: Seq<u8>, s: int, e: int, sep: u8) -> Option<(int, int, int, int)> {
    let z1 = sep_end(b, s, e, sep);
    if z1 >= e {
        None
    } else {
        let z2 = sep_end(b, z1 + 1, e, sep);
        if z2 >= e {
            None
        } else {
            let z3 = sep_end(b, z2 + 1, e, sep);
            if z3 >= e {
                None
            } else {
                Some((z1, z2, z3, sep_end(b, z3 + 1, e, sep)))
            }
        }
    }
}

/// The commit lines of `b[i..]`: for each line with at least four
/// NUL-separated fields, its start and the ends of its first four fields.
pub open spec fn commit_lines_from(b: Seq<u8>, i: int) -> Seq<(int, int, int, int, int)>
    decreases b.len() - i,
{
    if i < 0 || i >= b.len() {
        Seq::empty()
    } else {
        let e = nl_from(b, i);
        let here: Seq<(int, int, int, int, int)> = match four_fields(b, i, line_end(b, i), 0u8) {
            Some(z) => seq![(i, z.0, z.1, z.2, z.3)],
            None => Seq::empty(),
        };
        if e < b.len() && e + 1 > i {
            here + commit_lines_from(b, e + 1)
        } else {
            here
        }
    }
}

/// A commit read from a line: hash, subject, author, and the timestamp (0
/// when the fourth field is not a `u64`).
pub open spec fn spec_commit(b: Seq<u8>, r: (int, int, int, int, int)) -> (
    Seq<u8>,
    Seq<u8>,
    Seq<u8>,
    int,
) {
    (
        b.subrange(r.0, r.1),
        b.subrange(r.1 + 1, r.2),
        b.subrange(r.2 + 1, r.3),
        match parse_unsigned(b.subrange(r.3 + 1, r.4), u64::MAX as int) {
            Some(t) => t,
            None => 0,
        },
    )
}

/// The commits listed by `git log --format=%h%x00%s%x00%an%x00%at`.
pub open spec fn spec_commits(b: Seq<u8>) -> Seq<(Seq<u8>, Seq<u8>, Seq<u8>, int)> {
    commit_lines_from(b, 0).map_values(|r: (int, int, int, int, int)| spec_commit(b, r))
}

/// A commit as text and number.
pub open spec fn commit_view(c: CommitInfo) -> (Seq<u8>, Seq<u8>, Seq<u8>, int) {
    (utf8(c.hash@), utf8(c.subject@), utf8(c.author@), c.timestamp as int)
}

/// The piece `b[lo..hi]`, cut at boundaries of valid UTF-8, as a string.
fn piece_string(b: &[u8], lo: usize, hi: usize) -> (r: String)
    requires
        valid_utf8(b@),
        lo <= hi <= b@.len(),
        boundary(b@, lo as int),
        boundary(b@, hi as int),
    ensures
        utf8(r@) == b@.subrange(lo as int, hi as int),
{
    let mut v: Vec<u8> = Vec::new();
    proof {
        lemma_ascii_valid(v@);
    }
    push_span(&mut v, b, lo, hi);
    assert(v@ =~= b@.subrange(lo as int, hi as int));
    bytes_to_string(v)
}

/// The ends of the first four fields of a line, cut at boundaries.
fn four_fields_exec(b: &[u8], s: usize, e: usize, sep: u8) -> (r: Option<(usize, usize, usize, usize)>)
    requires
        s <= e <= b@.len(),
        sep < 0x80,
        valid_utf8(b@),
        boundary(b@, e as int),
    ensures
        match r {
            Some(z) => four_fields(b@, s as int, e as int, sep) == Some(
                (z.0 as int, z.1 as int, z.2 as int, z.3 as int),
            ) && s <= z.0 < z.1 < z.2 < z.3 <= e && boundary(b@, z.0 as int) && boundary(
                b@,
                z.0 + 1,
            ) && boundary(b@, z.1 as int) && boundary(b@, z.1 + 1) && boundary(b@, z.2 as int)
                && boundary(b@, z.2 + 1) && boundary(b@, z.3 as int),
            None => four_fields(b@, s as int, e as int, sep) is None,
        },
{
    let z1 = sep_end_exec(b, s, e, sep);
    if z1 >= e {
        return None;
    }
    let z2 = sep_end_exec(b, z1 + 1, e, sep);
    if z2 >= e {
        return None;
    }
    let z3 = sep_end_exec(b, z2 + 1, e, sep);
    if z3 >= e {
        return None;
    }
    let z4 = sep_end_exec(b, z3 + 1, e, sep);
    proof {
        lemma_after_ascii(b@, z1 as int);
        lemma_after_ascii(b@, z2 as int);
        lemma_after_ascii(b@, z3 as int);
        if z4 < e {
            lemma_after_ascii(b@, z4 as int);
        }
    }
    Some((z1, z2, z3, z4))
}

/// The view of commits.
pub open spec fn commits_view(v: Seq<CommitInfo>) -> Seq<(Seq<u8>, Seq<u8>, Seq<u8>, int)> {
    v.map_values(|c: CommitInfo| commit_view(c))
}

/// Read the commits listed by `git log --format=%h%x00%s%x00%an%x00%at`:
/// one per line with at least four NUL-separated fields.
pub fn parse_commit_log(stdout: &str) -> (r: Vec<CommitInfo>)
    ensures
        commits_view(r@) == spec_commits(utf8(stdout@)),
{
    let b = stdout.as_bytes();
    let ghost bs = b@;
    let blen = b.len();
    let mut out: Vec<CommitInfo> = Vec::new();
    let mut i: usize = 0;
    proof {
        if bs.len() > 0 {
            lemma_first_not_continuation(bs);
        }
    }
    assert(commits_view(out@) =~= Seq::<(Seq<u8>, Seq<u8>, Seq<u8>, int)>::empty());
    while i < b.len()
        invariant
            bs == b@,
            blen == bs.len(),
            valid_utf8(bs),
            i <= bs.len(),
            boundary(bs, i as int),
            commits_view(out@) + commit_lines_from(bs, i as int).map_values(
                |r: (int, int, int, int, int)| spec_commit(bs, r),
            ) == spec_commits(bs),
        decreases bs.len() - i,
    {
        let (e, end) = line_bounds(b, i);
        let ghost before = commits_view(out@);
        let ghost rest = commit_lines_from(bs, i as int);
        match four_fields_exec(b, i, end, 0u8) {
            Some(z) => {
                let hash = piece_string(b, i, z.0);
                let subject = piece_string(b, z.0 + 1, z.1);
                let author = piece_string(b, z.1 + 1, z.2);
                let timestamp = match parse_unsigned_exec(b, z.2 + 1, z.3, u64::MAX) {
                    Some(t) => t,
                    None => 0,
                };
                out.push(CommitInfo { hash, subject, author, timestamp });
                proof {
                    let r = (i as int, z.0 as int, z.1 as int, z.2 as int, z.3 as int);
                    assert(commits_view(out@) =~= before.push(spec_commit(bs, r)));
                }
            },
            None => {},
        }
        let ghost f = |r: (int, int, int, int, int)| spec_commit(bs, r);
        if e < b.len() {
            i = e + 1;
            assert(commits_view(out@) + commit_lines_from(bs, i as int).map_values(f) =~= before
                + rest.map_values(f));
        } else {
            i = b.len();
            assert(commit_lines_from(bs, i as int) =~= Seq::<(int, int, int, int, int)>::empty());
            assert(commits_view(out@) + commit_lines_from(bs, i as int).map_values(f) =~= before
                + rest.map_values(f));
        }
    }
    assert(commit_lines_from(bs, i as int) =~= Seq::<(int, int, int, int, int)>::empty());
    assert(commits_view(out@) =~= commits_view(out@) + commit_lines_from(bs, i as int).map_values(
        |r: (int, int, int, int, int)| spec_commit(bs, r),
    ));
    out
}

// ---------------------------------------------------------------------------
// git log --numstat output
// ---------------------------------------------------------------------------

/// The ends of the first three `sep`-separated fields of `b[s..e]`, when it
/// has at least three fields: `(z1, z2, z3)`, the fields being `[s, z1)`,
/// `(z1, z2)` and `(z2, z3)`.
pub open spec fn three_fields(b: Seq<u8>, s: int, e: int, sep: u8) -> Option<(int, int, int)> {
    let z1 = sep_end(b, s, e, sep);
    if z1 >= e {
        None
    } else {
        let z2 = sep_end(b, z1 + 1, e, sep);
        if z2 >= e {
            None
        } else {
            Some((z1, z2, sep_end(b, z2 + 1, e, sep)))
        }
    }
}

/// The numstat lines of `b[i..]`: for each trimmed line with at least three
/// tab-separated fields, its start and the ends of its first three fields
/// (insertions, deletions, path).
pub open spec fn numstat_lines_from(b: Seq<u8>, i: int) -> Seq<(int, int, int, int)>
    decreases b.len() - i,
{
    if i < 0 || i >= b.len() {
        Seq::empty()
    } else {
        let e = nl_from(b, i);
        let (ts, te) = trim_range(b, i, line_end(b, i));
        let here: Seq<(int, int, int, int)> = match three_fields(b, ts, te, 9u8) {
            Some(z) => seq![(ts, z.0, z.1, z.2)],
            None => Seq::empty(),
        };
        if e < b.len() && e + 1 > i {
            here + numstat_lines_from(b, e + 1)
        } else {
            here
        }
    }
}

/// A count field: its value as a `usize`, or 0 (binary files show `-`).
pub open spec fn count_value(b: Seq<u8>, s: int, e: int) -> int {
    match parse_unsigned(b.subrange(s, e), usize::MAX as int) {
        Some(v) => v,
        None => 0,
    }
}

/// Total insertions of numstat lines.
pub open spec fn sum_insertions(b: Seq<u8>, es: Seq<(int, int, int, int)>) -> int
    decreases es.len(),
{
    if es.len() == 0 {
        0
    } else {
        sum_insertions(b, es.drop_last()) + count_value(b, es.last().0, es.last().1)
    }
}

/// Total deletions of numstat lines.
pub open spec fn sum_deletions(b: Seq<u8>, es: Seq<(int, int, int, int)>) -> int
    decreases es.len(),
{
    if es.len() == 0 {
        0
    } else {
        sum_deletions(b, es.drop_last()) + count_value(b, es.last().1 + 1, es.last().2)
    }
}

/// The paths of numstat lines.
pub open spec fn numstat_paths(b: Seq<u8>, es: Seq<(int, int, int, int)>) -> Seq<Seq<u8>> {
    es.map_values(|r: (int, int, int, int)| b.subrange(r.2 + 1, r.3))
}

/// The diffstat of `git log --numstat` output: the number of distinct
/// paths, total insertions and total deletions; `None` when a total does
/// not fit in a `usize`.
pub open spec fn spec_numstat(b: Seq<u8>) -> Option<(int, int, int)> {
    let es = numstat_lines_from(b, 0);
    let ins = sum_insertions(b, es);
    let del = sum_deletions(b, es);
    if ins > usize::MAX || del > usize::MAX {
        None
    } else {
        Some((numstat_paths(b, es).to_set().len() as int, ins, del))
    }
}

proof fn lemma_sums_nonneg(b: Seq<u8>, es: Seq<(int, int, int, int)>)
    ensures
        sum_insertions(b, es) >= 0,
        sum_deletions(b, es) >= 0,
    decreases es.len(),
{
    if es.len() > 0 {
        lemma_sums_nonneg(b, es.drop_last());
        crate::text::lemma_parse_unsigned_nonneg(b.subrange(es.last().0, es.last().1), usize::MAX as int);
        crate::text::lemma_parse_unsigned_nonneg(b.subrange(es.last().1 + 1, es.last().2), usize::MAX as int);
    }
}

proof fn lemma_sums_prefix(b: Seq<u8>, es: Seq<(int, int, int, int)>, k: int)
    requires
        0 <= k <= es.len(),
    ensures
        sum_insertions(b, es.subrange(0, k)) <= sum_insertions(b, es),
        sum_deletions(b, es.subrange(0, k)) <= sum_deletions(b, es),
    decreases es.len() - k,
{
    if k < es.len() {
        lemma_sums_prefix(b, es.drop_last(), k);
        assert(es.drop_last().subrange(0, k) =~= es.subrange(0, k));
        crate::text::lemma_parse_unsigned_nonneg(b.subrange(es.last().0, es.last().1), usize::MAX as int);
        crate::text::lemma_parse_unsigned_nonneg(b.subrange(es.last().1 + 1, es.last().2), usize::MAX as int);
    } else {
        assert(es.subrange(0, k) =~= es);
    }
}

/// The view of numstat entries.
pub open spec fn entries_view(v: Seq<(usize, usize, usize, usize)>) -> Seq<(int, int, int, int)> {
    v.map_values(|r: (usize, usize, usize, usize)| (r.0 as int, r.1 as int, r.2 as int, r.3 as int))
}

fn three_fields_exec(b: &[u8], s: usize, e: usize, sep: u8) -> (r: Option<(usize, usize, usize)>)
    requires
        s <= e <= b@.len(),
    ensures
        match r {
            Some(z) => three_fields(b@, s as int, e as int, sep) == Some(
                (z.0 as int, z.1 as int, z.2 as int),
            ) && s <= z.0 < z.1 < z.2 <= e,
            None => three_fields(b@, s as int, e as int, sep) is None,
        },
{
    let z1 = sep_end_exec(b, s, e, sep);
    if z1 >= e {
        return None;
    }
    let z2 = sep_end_exec(b, z1 + 1, e, sep);
    if z2 >= e {
        return None;
    }
    let z3 = sep_end_exec(b, z2 + 1, e, sep);
    Some((z1, z2, z3))
}

/// The numstat entries of the output, in order.
fn numstat_entries(b: &[u8]) -> (r: Vec<(usize, usize, usize, usize)>)
    ensures
        entries_view(r@) == numstat_lines_from(b@, 0),
        forall|k: int|
            0 <= k < r@.len() ==> (#[trigger] r@[k]).0 <= r@[k].1 < r@[k].2 < r@[k].3
                <= b@.len(),
{
    let mut out: Vec<(usize, usize, usize, usize)> = Vec::new();
    let mut i: usize = 0;
    assert(entries_view(out@) =~= Seq::<(int, int, int, int)>::empty());
    while i < b.len()
        invariant
            i <= b@.len(),
            entries_view(out@) + numstat_lines_from(b@, i as int) == numstat_lines_from(b@, 0),
            forall|k: int|
                0 <= k < out@.len() ==> (#[trigger] out@[k]).0 <= out@[k].1 < out@[k].2
                    < out@[k].3 <= b@.len(),
        decreases b@.len() - i,
    {
        let e = crate::text::nl_from_exec(b, i);
        let end = crate::text::line_content_end(b, i, e);
        let (ts, te) = trim_exec(b, i, end);
        let ghost before = entries_view(out@);
        let ghost rest = numstat_lines_from(b@, i as int);
        match three_fields_exec(b, ts, te, 9u8) {
            Some(z) => {
                out.push((ts, z.0, z.1, z.2));
                assert(entries_view(out@) =~= before.push(
                    (ts as int, z.0 as int, z.1 as int, z.2 as int),
                ));
            },
            None => {},
        }
        if e < b.len() {
            i = e + 1;
            assert(entries_view(out@) + numstat_lines_from(b@, i as int) =~= before + rest);
        } else {
            i = b.len();
            assert(numstat_lines_from(b@, i as int) =~= Seq::<(int, int, int, int)>::empty());
            assert(entries_view(out@) + numstat_lines_from(b@, i as int) =~= before + rest);
        }
    }
    assert(numstat_lines_from(b@, i as int) =~= Seq::<(int, int, int, int)>::empty());
    assert(entries_view(out@) =~= entries_view(out@) + numstat_lines_from(b@, i as int));
    out
}

/// Read the diffstat of `git log --format= --numstat` output: the number of
/// distinct paths, the total insertions and the total deletions (a `-` or
/// other non-number counts as 0); `None` when a total overflows a `usize`.
pub fn parse_numstat(stdout: &str) -> (r: Option<(usize, usize, usize)>)
    ensures
        match r {
            Some(t) => spec_numstat(utf8(stdout@)) == Some(
                (t.0 as int, t.1 as int, t.2 as int),
            ),
            None => spec_numstat(utf8(stdout@)) is None,
        },
{
    let b = stdout.as_bytes();
    let ghost bs = b@;
    let es = numstat_entries(b);
    let ghost ev = entries_view(es@);
    let mut names: Vec<Vec<u8>> = Vec::new();
    let mut ins: usize = 0;
    let mut del: usize = 0;
    let mut k: usize = 0;
    proof {
        lemma_sums_nonneg(bs, ev);
        assert(ev.subrange(0, 0) =~= Seq::<(int, int, int, int)>::empty());
    }
    while k < es.len()
        invariant
            bs == b@,
            bs == utf8(stdout@),
            ev == entries_view(es@),
            ev == numstat_lines_from(bs, 0),
            k <= es@.len(),
            forall|j: int|
                0 <= j < es@.len() ==> (#[trigger] es@[j]).0 <= es@[j].1 < es@[j].2 < es@[j].3
                    <= bs.len(),
            ins == sum_insertions(bs, ev.subrange(0, k as int)),
            del == sum_deletions(bs, ev.subrange(0, k as int)),
            names@.map_values(|n: Vec<u8>| n@).no_duplicates(),
            names@.map_values(|n: Vec<u8>| n@).to_set() == numstat_paths(
                bs,
                ev.subrange(0, k as int),
            ).to_set(),
        decreases es@.len() - k,
    {
        let ent = es[k];
        let ghost pre = ev.subrange(0, k as int);
        let ghost nx = ev.subrange(0, k + 1);
        proof {
            assert(nx.drop_last() =~= pre);
            assert(nx.last() == ev[k as int]);
            lemma_sums_prefix(bs, ev, k + 1);
        }
        let iv = match parse_unsigned_exec(b, ent.0, ent.1, usize::MAX as u64) {
            Some(v) => v as usize,
            None => 0,
        };
        let dv = match parse_unsigned_exec(b, ent.1 + 1, ent.2, usize::MAX as u64) {
            Some(v) => v as usize,
            None => 0,
        };
        proof {
            assert(iv == count_value(bs, ev[k as int].0, ev[k as int].1));
            assert(dv == count_value(bs, ev[k as int].1 + 1, ev[k as int].2));
            assert(sum_insertions(bs, nx) == ins + iv);
            assert(sum_deletions(bs, nx) == del + dv);
        }
        let ins2 = ins.checked_add(iv);
        let del2 = del.checked_add(dv);
        if ins2.is_none() || del2.is_none() {
            proof {
                assert(nx == ev.subrange(0, k + 1));
                if ins2.is_none() {
                    assert(sum_insertions(bs, ev) > usize::MAX);
                } else {
                    assert(sum_deletions(bs, ev) > usize::MAX);
                }
                assert(bs == utf8(stdout@));
                assert(spec_numstat(bs) is None);
            }
            return None;
        }
        ins = ins2.unwrap();
        del = del2.unwrap();
        let path = vstd::slice::slice_subrange(b, ent.2 + 1, ent.3);
        let ghost nv = names@.map_values(|n: Vec<u8>| n@);
        let mut found = false;
        let mut j: usize = 0;
        while j < names.len()
            invariant
                j <= names@.len(),
                nv == names@.map_values(|n: Vec<u8>| n@),
                found <==> exists|m: int| 0 <= m < j && nv[m] == path@,
            decreases names@.len() - j,
        {
            let same = bytes_eq(names[j].as_slice(), path);
            assert(nv[j as int] == names@[j as int]@);
            if same {
                found = true;
            }
            proof {
                if !same && !found {
                    assert forall|m: int| 0 <= m < j + 1 implies nv[m] != path@ by {
                        if m < j {
                            if nv[m] == path@ {
                                assert(exists|m2: int| 0 <= m2 < j && nv[m2] == path@);
                            }
                        }
                    }
                }
            }
            j = j + 1;
        }
        proof {
            assert(numstat_paths(bs, nx) =~= numstat_paths(bs, pre).push(path@));
            lemma_push_to_set(numstat_paths(bs, pre), path@);
            lemma_push_to_set(nv, path@);
        }
        if !found {
            let mut copy: Vec<u8> = Vec::new();
            crate::text::push_all(&mut copy, path);
            names.push(copy);
            proof {
                assert(names@.map_values(|n: Vec<u8>| n@) =~= nv.push(path@));
                assert forall|a: int, c: int|
                    0 <= a < nv.push(path@).len() && 0 <= c < nv.push(path@).len() && a != c
                    implies nv.push(path@)[a] != nv.push(path@)[c] by {
                    if a == nv.len() {
                        assert(nv[c] != path@);
                    } else if c == nv.len() {
                        assert(nv[a] != path@);
                    }
                }
            }
        } else {
            proof {
                let m = choose|m: int| 0 <= m < nv.len() && nv[m] == path@;
                assert(nv.contains(path@));
                assert(nv.to_set().contains(path@));
                assert(nv.to_set().insert(path@) =~= nv.to_set());
            }
        }
        k = k + 1;
    }
    proof {
        assert(ev.subrange(0, k as int) =~= ev);
        names@.map_values(|n: Vec<u8>| n@).unique_seq_to_set();
    }
    Some((names.len(), ins, del))
}

/// Pushing an item adds it to the set of a sequence.
proof fn lemma_push_to_set<A>(s: Seq<A>, x: A)
    ensures
        s.push(x).to_set() == s.to_set().insert(x),
{
    assert forall|a: A| s.push(x).to_set().contains(a) <==> s.to_set().insert(x).contains(a) by {
        if s.push(x).contains(a) {
            let i = choose|i: int| 0 <= i < s.push(x).len() && s.push(x)[i] == a;
            if i < s.len() {
                assert(s[i] == a);
                assert(s.contains(a));
            }
        }
        if s.contains(a) {
            let i = choose|i: int| 0 <= i < s.len() && s[i] == a;
            assert(s.push(x)[i] == a);
        }
        if a == x {
            assert(s.push(x)[s.len() as int] == x);
        }
    }
    assert(s.push(x).to_set() =~= s.to_set().insert(x));
}

} // verus!
