//! Daemon decisions: socket and lock paths, the lock file protocol, daemon
//! errors, the adaptive group-commit interval, and runtime request idents.
use vstd::prelude::*;
use vstd::utf8::*;
use crate::error::{
    BraidError, IoFailure, spec_display,
};
use crate::text::{
    bytes_to_string, decimal, lemma_ascii_valid, parse_unsigned, parse_unsigned_exec,
    push_decimal_valid, push_signed_decimal_valid, push_str_bytes, signed_decimal, trim_exec,
    trim_range, utf8,
};

verus! {

broadcast use vstd::utf8::group_utf8_lib;

// ---------------------------------------------------------------------------
// Paths
// ---------------------------------------------------------------------------

/// `Path::join` on Unix paths: an absolute `name` replaces `base`; otherwise
/// `name` is appended, with a `/` between them unless `base` is empty or
/// already ends with one.
pub open spec fn join_path(base: Seq<u8>, name: Seq<u8>) -> Seq<u8> {
    if name.len() > 0 && name[0] == 0x2f {
        name
    } else if base.len() == 0 || base.last() == 0x2f {
        base + name
    } else {
        base + seq![0x2fu8] + name
    }
}

fn join_path_exec(base: &str, name: &str) -> (r: String)
    ensures
        utf8(r@) == join_path(utf8(base@), utf8(name@)),
{
    let b = base.as_bytes();
    let n = name.as_bytes();
    let mut v: Vec<u8> = Vec::new();
    proof {
        lemma_ascii_valid(v@);
    }
    if n.len() > 0 && n[0] == 0x2f {
        push_str_bytes(&mut v, name);
    } else if b.len() == 0 || b[b.len() - 1] == 0x2f {
        push_str_bytes(&mut v, base);
        push_str_bytes(&mut v, name);
    } else {
        push_str_bytes(&mut v, base);
        proof {
            lemma_ascii_valid(seq![0x2fu8]);
            valid_utf8_concat(v@, seq![0x2fu8]);
        }
        let ghost before = v@;
        v.push(0x2fu8);
        assert(v@ =~= before + seq![0x2fu8]);
        push_str_bytes(&mut v, name);
    }
    assert(v@ =~= join_path(b@, n@));
    bytes_to_string(v)
}

/// Type-safe wrapper for the daemon Unix socket path (`.braid/daemon.sock`).
#[derive(Debug, Clone)]
pub struct SocketPath(pub String);

impl SocketPath {
    /// Construct a socket path by appending `daemon.sock` to the store base.
    pub fn new(base: &str) -> (r: SocketPath)
        ensures
            utf8(r.0@) == join_path(utf8(base@), utf8("daemon.sock"@)),
    {
        SocketPath(join_path_exec(base, "daemon.sock"))
    }

    /// Borrow the inner path.
    pub fn path(&self) -> (r: &str)
        ensures
            r@ == self.0@,
    {
        self.0.as_str()
    }
}

/// Type-safe wrapper for the daemon lock file path (`.braid/daemon.lock`).
#[derive(Debug, Clone)]
pub struct LockPath(pub String);

impl LockPath {
    /// Construct a lock path by appending `daemon.lock` to the store base.
    pub fn new(base: &str) -> (r: LockPath)
        ensures
            utf8(r.0@) == join_path(utf8(base@), utf8("daemon.lock"@)),
    {
        LockPath(join_path_exec(base, "daemon.lock"))
    }

    /// Borrow the inner path.
    pub fn path(&self) -> (r: &str)
        ensures
            r@ == self.0@,
    {
        self.0.as_str()
    }
}

/// A JSON document of `serde_json`, carried through unread.
#[verifier::external_type_specification]
#[verifier::external_body]
pub struct ExJsonValue(serde_json::Value);

/// `Clone` of a JSON document, which `serde_json` derives: the copy is the
/// same document.
pub assume_specification [<serde_json::Value as Clone>::clone](v: &serde_json::Value) -> (r: serde_json::Value)
    ensures
        r == *v,
;

/// Type-safe wrapper for a JSON-RPC request ID.
///
/// The JSON-RPC 2.0 spec allows `id` to be a string, number, or null.
/// Wrapping it in a newtype prevents accidental use as a generic JSON value.
#[derive(Debug, Clone)]
pub struct RequestId(pub serde_json::Value);

// ---------------------------------------------------------------------------
// The lock file
// ---------------------------------------------------------------------------

/// Result of inspecting the daemon lock file.
#[derive(Debug, Clone, Copy, PartialEq, Eq, Structural)]
pub enum LockStatus {
    /// The lock file exists and the owning process (PID) is alive.
    Live(u32),
    /// The lock file exists but the owning process (PID) is dead.
    Stale(u32),
    /// No lock file present.
    Absent,
}

/// The PID written in a lock file: its trimmed content parsed as a `u32`.
pub open spec fn spec_lock_pid(b: Seq<u8>) -> Option<int> {
    let (s, e) = trim_range(b, 0, b.len() as int);
    parse_unsigned(b.subrange(s, e), u32::MAX as int)
}

/// The PID recorded in the content of a lock file, if it holds one (a
/// corrupted lock file holds none).
pub fn lock_pid(contents: &str) -> (r: Option<u32>)
    ensures
        match r {
            Some(p) => spec_lock_pid(utf8(contents@)) == Some(p as int),
            None => spec_lock_pid(utf8(contents@)) is None,
        },
{
    let b = contents.as_bytes();
    let (s, e) = trim_exec(b, 0, b.len());
    match parse_unsigned_exec(b, s, e, 4294967295u64) {
        Some(p) => Some(p as u32),
        None => None,
    }
}

/// The status of a lock whose content was read and whose PID was probed:
/// `Live` when the process is alive, `Stale` when it is not.
pub fn lock_status_for(pid: u32, alive: bool) -> (r: LockStatus)
    ensures
        r == (if alive {
            LockStatus::Live(pid)
        } else {
            LockStatus::Stale(pid)
        }),
{
    if alive {
        LockStatus::Live(pid)
    } else {
        LockStatus::Stale(pid)
    }
}

/// What happened when creating the lock file exclusively.
#[derive(Debug)]
pub enum LockAttempt {
    /// The file was created and the PID written.
    Created,
    /// The file was created but writing the PID failed.
    WriteFailed(IoFailure),
    /// The file already exists; its status as inspected.
    AlreadyExists(LockStatus),
    /// Creating the file failed for another reason.
    OpenFailed(IoFailure),
}

/// The next step of acquiring the lock.
#[derive(Debug)]
pub enum LockStep {
    /// The lock is held by this process.
    Acquired,
    /// Acquiring failed with this error.
    Failed(DaemonError),
    /// The lock of a dead process is removed, then creation is tried again.
    RemoveStaleAndRetry(u32),
    /// The lock vanished meanwhile; creation is tried again.
    Retry,
}

/// Decide the next step of acquiring the lock from the outcome of an
/// exclusive create: a live owner refuses the lock, a dead owner's lock is
/// removed and the create retried.
pub fn acquire_step(attempt: LockAttempt) -> (r: LockStep)
    ensures
        match attempt {
            LockAttempt::Created => r is Acquired,
            LockAttempt::WriteFailed(e) => r == LockStep::Failed(DaemonError::BindFailed(e)),
            LockAttempt::AlreadyExists(LockStatus::Live(pid)) => r == LockStep::Failed(
                DaemonError::LockHeld { pid },
            ),
            LockAttempt::AlreadyExists(LockStatus::Stale(pid)) => r
                == LockStep::RemoveStaleAndRetry(pid),
            LockAttempt::AlreadyExists(LockStatus::Absent) => r is Retry,
            LockAttempt::OpenFailed(e) => r == LockStep::Failed(DaemonError::BindFailed(e)),
        },
{
    match attempt {
        LockAttempt::Created => LockStep::Acquired,
        LockAttempt::WriteFailed(e) => LockStep::Failed(DaemonError::BindFailed(e)),
        LockAttempt::AlreadyExists(status) => match status {
            LockStatus::Live(pid) => LockStep::Failed(DaemonError::LockHeld { pid }),
            LockStatus::Stale(pid) => LockStep::RemoveStaleAndRetry(pid),
            LockStatus::Absent => LockStep::Retry,
        },
        LockAttempt::OpenFailed(e) => LockStep::Failed(DaemonError::BindFailed(e)),
    }
}

// ---------------------------------------------------------------------------
// Daemon errors
// ---------------------------------------------------------------------------

/// Daemon-specific error type with structured recovery information.
#[derive(Debug)]
pub enum DaemonError {
    /// Another daemon instance holds the lock file.
    LockHeld { pid: u32 },
    /// Lock file exists but the owning process is dead. Auto-recoverable.
    LockStale { pid: u32 },
    /// Cannot bind the Unix domain socket.
    BindFailed(IoFailure),
    /// Shutdown already in progress — duplicate stop request.
    AlreadyStopping,
    /// No daemon is running (stop/status on absent daemon).
    NotRunning,
    /// Client cannot connect to the daemon socket.
    ConnectionFailed(IoFailure),
    /// Client connection or read timed out.
    Timeout,
    /// Underlying store operation failed.
    StoreError(BraidError),
    /// Malformed JSON-RPC message.
    ProtocolError(String),
}

/// The four-part message of a daemon error with the given headline, cause
/// and fix.
pub open spec fn daemon_text(what: Seq<char>, why: Seq<u8>, fix: Seq<char>) -> Seq<u8> {
    utf8("error: "@) + utf8(what) + utf8("\n  why: "@) + why + utf8("\n  fix: "@) + utf8(fix)
        + utf8("\n  ref: ADR-STORE-006"@)
}

/// The message of each daemon error.
pub open spec fn spec_daemon_message(e: DaemonError) -> Seq<u8> {
    match e {
        DaemonError::LockHeld { pid } => daemon_text(
            "daemon lock held"@,
            utf8("another daemon is running (pid "@) + decimal(pid as nat) + utf8(")"@),
            "stop the existing daemon with `braid daemon stop`"@,
        ),
        DaemonError::LockStale { pid } => daemon_text(
            "stale daemon lock"@,
            utf8("lock file references dead process (pid "@) + decimal(pid as nat) + utf8(")"@),
            "the lock will be auto-recovered on next start"@,
        ),
        DaemonError::BindFailed(f) => daemon_text(
            "cannot bind daemon socket"@,
            utf8(f.message@),
            "check permissions on .braid/ and ensure no stale socket file exists"@,
        ),
        DaemonError::AlreadyStopping => daemon_text(
            "daemon already stopping"@,
            utf8("a shutdown is already in progress"@),
            "wait for the current shutdown to complete"@,
        ),
        DaemonError::NotRunning => daemon_text(
            "daemon not running"@,
            utf8("no daemon process is active"@),
            "start the daemon with `braid daemon start`"@,
        ),
        DaemonError::ConnectionFailed(f) => daemon_text(
            "daemon connection failed"@,
            utf8(f.message@),
            "verify the daemon is running with `braid daemon status`"@,
        ),
        DaemonError::Timeout => daemon_text(
            "daemon request timed out"@,
            utf8("no response within the configured deadline"@),
            "check daemon health with `braid daemon status` or restart"@,
        ),
        DaemonError::StoreError(b) => daemon_text(
            "daemon store error"@,
            spec_display(b),
            "run `braid status` to diagnose store state"@,
        ),
        DaemonError::ProtocolError(m) => daemon_text(
            "daemon protocol error"@,
            utf8(m@),
            "ensure client sends valid JSON-RPC 2.0 messages"@,
        ),
    }
}

fn push_daemon_text(v: &mut Vec<u8>, what: &str, why: &Vec<u8>, fix: &str)
    requires
        valid_utf8(old(v)@),
        valid_utf8(why@),
        old(v)@.len() == 0,
    ensures
        final(v)@ == daemon_text(what@, why@, fix@),
        valid_utf8(final(v)@),
{
    push_str_bytes(v, "error: ");
    push_str_bytes(v, what);
    push_str_bytes(v, "\n  why: ");
    proof {
        valid_utf8_concat(v@, why@);
    }
    crate::text::push_all(v, why.as_slice());
    push_str_bytes(v, "\n  fix: ");
    push_str_bytes(v, fix);
    push_str_bytes(v, "\n  ref: ADR-STORE-006");
    assert(v@ =~= daemon_text(what@, why@, fix@));
}

fn text_bytes(s: &str) -> (v: Vec<u8>)
    ensures
        v@ == utf8(s@),
        valid_utf8(v@),
{
    let mut v: Vec<u8> = Vec::new();
    proof {
        lemma_ascii_valid(v@);
    }
    push_str_bytes(&mut v, s);
    assert(v@ =~= utf8(s@));
    v
}

fn pid_text(before: &str, pid: u32) -> (v: Vec<u8>)
    ensures
        v@ == utf8(before@) + decimal(pid as nat) + utf8(")"@),
        valid_utf8(v@),
{
    let mut v = text_bytes(before);
    push_decimal_valid(&mut v, pid as u64);
    push_str_bytes(&mut v, ")");
    v
}

impl DaemonError {
    /// The four-part message of this error (error, why, fix, ref).
    pub fn to_string(&self) -> (r: String)
        ensures
            utf8(r@) == spec_daemon_message(*self),
    {
        let mut v: Vec<u8> = Vec::new();
        proof {
            lemma_ascii_valid(v@);
        }
        match self {
            DaemonError::LockHeld { pid } => {
                let why = pid_text("another daemon is running (pid ", *pid);
                push_daemon_text(
                    &mut v,
                    "daemon lock held",
                    &why,
                    "stop the existing daemon with `braid daemon stop`",
                );
            },
            DaemonError::LockStale { pid } => {
                let why = pid_text("lock file references dead process (pid ", *pid);
                push_daemon_text(
                    &mut v,
                    "stale daemon lock",
                    &why,
                    "the lock will be auto-recovered on next start",
                );
            },
            DaemonError::BindFailed(f) => {
                let why = text_bytes(f.message.as_str());
                push_daemon_text(
                    &mut v,
                    "cannot bind daemon socket",
                    &why,
                    "check permissions on .braid/ and ensure no stale socket file exists",
                );
            },
            DaemonError::AlreadyStopping => {
                let why = text_bytes("a shutdown is already in progress");
                push_daemon_text(
                    &mut v,
                    "daemon already stopping",
                    &why,
                    "wait for the current shutdown to complete",
                );
            },
            DaemonError::NotRunning => {
                let why = text_bytes("no daemon process is active");
                push_daemon_text(
                    &mut v,
                    "daemon not running",
                    &why,
                    "start the daemon with `braid daemon start`",
                );
            },
            DaemonError::ConnectionFailed(f) => {
                let why = text_bytes(f.message.as_str());
                push_daemon_text(
                    &mut v,
                    "daemon connection failed",
                    &why,
                    "verify the daemon is running with `braid daemon status`",
                );
            },
            DaemonError::Timeout => {
                let why = text_bytes("no response within the configured deadline");
                push_daemon_text(
                    &mut v,
                    "daemon request timed out",
                    &why,
                    "check daemon health with `braid daemon status` or restart",
                );
            },
            DaemonError::StoreError(b) => {
                let s = b.to_string();
                let why = text_bytes(s.as_str());
                push_daemon_text(
                    &mut v,
                    "daemon store error",
                    &why,
                    "run `braid status` to diagnose store state",
                );
            },
            DaemonError::ProtocolError(m) => {
                let why = text_bytes(m.as_str());
                push_daemon_text(
                    &mut v,
                    "daemon protocol error",
                    &why,
                    "ensure client sends valid JSON-RPC 2.0 messages",
                );
            },
        }
        bytes_to_string(v)
    }
}

impl From<IoFailure> for DaemonError {
    fn from(e: IoFailure) -> (r: DaemonError) {
        DaemonError::ConnectionFailed(e)
    }
}

impl vstd::std_specs::convert::FromSpecImpl<IoFailure> for DaemonError {
    open spec fn obeys_from_spec() -> bool {
        true
    }

    open spec fn from_spec(e: IoFailure) -> DaemonError {
        DaemonError::ConnectionFailed(e)
    }
}

impl From<BraidError> for DaemonError {
    fn from(e: BraidError) -> (r: DaemonError) {
        DaemonError::StoreError(e)
    }
}

impl vstd::std_specs::convert::FromSpecImpl<BraidError> for DaemonError {
    open spec fn obeys_from_spec() -> bool {
        true
    }

    open spec fn from_spec(e: BraidError) -> DaemonError {
        DaemonError::StoreError(e)
    }
}

// ---------------------------------------------------------------------------
// Adaptive group-commit interval
// ---------------------------------------------------------------------------

/// Default batch interval, in milliseconds: the starting point before
/// adaptive tuning.
pub const GROUP_COMMIT_INITIAL_INTERVAL_MS: u64 = 25;

/// Minimum batch interval under sustained load (many concurrent writers), in
/// milliseconds.
pub const GROUP_COMMIT_MIN_INTERVAL_MS: u64 = 5;

/// Number of consecutive single-item batches before the interval goes back
/// up.
pub const GROUP_COMMIT_SINGLE_BATCH_THRESHOLD: u32 = 5;

/// The adaptive batch interval of the commit thread: throughput mode
/// (the minimum interval) after a batch of several requests, latency mode
/// (the initial interval) after enough single-request batches in a row.
#[derive(Debug, Clone, Copy, PartialEq, Eq, Structural)]
pub struct BatchInterval {
    /// Current batch interval in milliseconds.
    pub interval_ms: u64,
    /// Single-request batches since the last batch of several.
    pub consecutive_singles: u32,
}

impl BatchInterval {
    /// The interval is one of the two modes.
    pub open spec fn wf(self) -> bool {
        self.interval_ms == GROUP_COMMIT_INITIAL_INTERVAL_MS || self.interval_ms
            == GROUP_COMMIT_MIN_INTERVAL_MS
    }

    /// The interval after a batch of `batch_size` requests.
    pub open spec fn spec_after(self, batch_size: int) -> BatchInterval {
        if batch_size > 1 {
            BatchInterval { interval_ms: GROUP_COMMIT_MIN_INTERVAL_MS, consecutive_singles: 0 }
        } else {
            let singles = (self.consecutive_singles + 1) as u32;
            BatchInterval {
                interval_ms: if singles >= GROUP_COMMIT_SINGLE_BATCH_THRESHOLD {
                    GROUP_COMMIT_INITIAL_INTERVAL_MS
                } else {
                    self.interval_ms
                },
                consecutive_singles: singles,
            }
        }
    }

    /// The starting state: the initial interval, no single batches yet.
    pub fn new() -> (r: BatchInterval)
        ensures
            r.interval_ms == GROUP_COMMIT_INITIAL_INTERVAL_MS,
            r.consecutive_singles == 0,
            r.wf(),
    {
        BatchInterval { interval_ms: GROUP_COMMIT_INITIAL_INTERVAL_MS, consecutive_singles: 0 }
    }

    /// Tune the interval after a batch of `batch_size` requests: a batch of
    /// several drops to the minimum interval and resets the count of single
    /// batches; a single batch adds to the count, and at the threshold the
    /// interval returns to the initial one.
    pub fn after_batch(&mut self, batch_size: usize)
        requires
            batch_size > 1 || old(self).consecutive_singles < u32::MAX,
        ensures
            *final(self) == old(self).spec_after(batch_size as int),
            old(self).wf() ==> final(self).wf(),
    {
        if batch_size > 1 {
            self.interval_ms = GROUP_COMMIT_MIN_INTERVAL_MS;
            self.consecutive_singles = 0;
        } else {
            self.consecutive_singles = self.consecutive_singles + 1;
            if self.consecutive_singles >= GROUP_COMMIT_SINGLE_BATCH_THRESHOLD {
                self.interval_ms = GROUP_COMMIT_INITIAL_INTERVAL_MS;
            }
        }
    }
}

// ---------------------------------------------------------------------------
// The checkpoint thread
// ---------------------------------------------------------------------------

/// A channel end of `std::sync::mpsc` on which a value is sent back.
#[verifier::external_type_specification]
#[verifier::external_body]
#[verifier::reject_recursive_types(T)]
pub struct ExSender<T>(std::sync::mpsc::Sender<T>);

/// Signals sent to the checkpoint thread.
pub enum CheckpointSignal {
    /// Periodic passive checkpoint: convert pending WAL entries to `.edn` files.
    Tick,
    /// Full checkpoint for `harvest --commit`: checkpoint all, truncate the WAL.
    /// The sender receives the result when the full checkpoint completes.
    Full(std::sync::mpsc::Sender<Result<(), String>>),
    /// Shutdown: run a final passive checkpoint and exit.
    Stop,
}

/// What the checkpoint thread's wait for a signal gave.
pub enum CheckpointEvent {
    /// A signal arrived.
    Received(CheckpointSignal),
    /// The checkpoint interval passed with no signal.
    TimedOut,
    /// Every sender is gone.
    Disconnected,
}

/// What the checkpoint thread does next.
pub enum CheckpointAction {
    /// Convert pending WAL entries, then wait again.
    Passive,
    /// Checkpoint everything and truncate the WAL, send the result on the
    /// channel, then wait again.
    Full(std::sync::mpsc::Sender<Result<(), String>>),
    /// Convert pending WAL entries, then stop.
    PassiveThenStop,
}

/// The checkpoint thread's decision for one event: a tick or a timeout runs
/// a passive checkpoint, a full request runs a full checkpoint and answers
/// on its channel, and a stop or a disconnected channel runs a last passive
/// checkpoint and ends the thread, so that no entry is lost.
pub fn checkpoint_step(event: CheckpointEvent) -> (r: CheckpointAction)
    ensures
        match event {
            CheckpointEvent::Received(CheckpointSignal::Tick) => r is Passive,
            CheckpointEvent::TimedOut => r is Passive,
            CheckpointEvent::Received(CheckpointSignal::Full(done)) => r == CheckpointAction::Full(
                done,
            ),
            CheckpointEvent::Received(CheckpointSignal::Stop) => r is PassiveThenStop,
            CheckpointEvent::Disconnected => r is PassiveThenStop,
        },
{
    match event {
        CheckpointEvent::Received(CheckpointSignal::Tick) | CheckpointEvent::TimedOut => {
            CheckpointAction::Passive
        },
        CheckpointEvent::Received(CheckpointSignal::Full(done)) => CheckpointAction::Full(done),
        CheckpointEvent::Received(CheckpointSignal::Stop) | CheckpointEvent::Disconnected => {
            CheckpointAction::PassiveThenStop
        },
    }
}

// ---------------------------------------------------------------------------
// Runtime request idents
// ---------------------------------------------------------------------------

/// The BLAKE3 hash (32 bytes) of some bytes.
pub uninterp spec fn blake3_hash(input: Seq<u8>) -> Seq<u8>;

/// BLAKE3 hash of `input`.
///
/// Calls `blake3::hash` and takes `Hash::as_bytes`; the 32 bytes are named
/// `blake3_hash` of the input.
#[verifier::external_body]
fn blake3_digest(input: &[u8]) -> (r: [u8; 32])
    ensures
        r@ == blake3_hash(input@),
{
    *blake3::hash(input).as_bytes()
}

/// The lowercase hexadecimal digit of a value below 16.
pub open spec fn hex_digit(n: int) -> u8 {
    if n < 10 {
        (48 + n) as u8
    } else {
        (87 + n) as u8
    }
}

/// Lowercase hexadecimal of bytes, two digits per byte, high nibble first.
pub open spec fn lower_hex(b: Seq<u8>) -> Seq<u8>
    decreases b.len(),
{
    if b.len() == 0 {
        Seq::empty()
    } else {
        lower_hex(b.drop_last()) + seq![hex_digit(b.last() as int / 16), hex_digit(b.last() as int % 16)]
    }
}

/// The ident of the runtime entity of a request: `:runtime/req-` and the
/// first 16 hex digits of the BLAKE3 hash of `REQUEST_ID:WALL_MS`.
pub open spec fn spec_runtime_ident(request_id: Seq<char>, wall_ms: int) -> Seq<u8> {
    let h = blake3_hash(utf8(request_id) + utf8(":"@) + signed_decimal(wall_ms));
    utf8(":runtime/req-"@) + lower_hex(h.subrange(0, 8))
}

/// The ident of the runtime entity that records a request with the given id
/// at the given wall-clock time (milliseconds).
pub fn runtime_request_ident(request_id: &str, wall_ms: i64) -> (r: String)
    ensures
        utf8(r@) == spec_runtime_ident(request_id@, wall_ms as int),
{
    let mut input: Vec<u8> = Vec::new();
    proof {
        lemma_ascii_valid(input@);
    }
    push_str_bytes(&mut input, request_id);
    push_str_bytes(&mut input, ":");
    push_signed_decimal_valid(&mut input, wall_ms);
    let digest = blake3_digest(input.as_slice());
    let mut v: Vec<u8> = Vec::new();
    proof {
        lemma_ascii_valid(v@);
    }
    push_str_bytes(&mut v, ":runtime/req-");
    let ghost head = v@;
    let ghost h = digest@;
    let mut k: usize = 0;
    while k < 8
        invariant
            k <= 8,
            h == digest@,
            h.len() == 32,
            valid_utf8(v@),
            v@ == head + lower_hex(h.subrange(0, k as int)),
        decreases 8 - k,
    {
        let byte = digest[k];
        let hi = byte / 16;
        let lo = byte % 16;
        let dh: u8 = if hi < 10 {
            48 + hi
        } else {
            87 + hi
        };
        let dl: u8 = if lo < 10 {
            48 + lo
        } else {
            87 + lo
        };
        proof {
            let pair = seq![dh, dl];
            assert(pair[0] < 0x80 && pair[1] < 0x80);
            lemma_ascii_valid(pair);
            valid_utf8_concat(v@, pair);
            let nx = h.subrange(0, k + 1);
            assert(nx.drop_last() =~= h.subrange(0, k as int));
            assert(nx.last() == byte);
        }
        let ghost before = v@;
        v.push(dh);
        v.push(dl);
        assert(v@ =~= before + seq![dh, dl]);
        k = k + 1;
    }
    assert(input@ =~= utf8(request_id@) + utf8(":"@) + signed_decimal(wall_ms as int));
    bytes_to_string(v)
}

/// The interval after `n` single-request batches in a row.
pub open spec fn after_singles(s: BatchInterval, n: nat) -> BatchInterval
    decreases n,
{
    if n == 0 {
        s
    } else {
        after_singles(s, (n - 1) as nat).spec_after(1)
    }
}

/// Adaptive interval: after a batch of several requests the interval is the
/// minimum, and from any state, `GROUP_COMMIT_SINGLE_BATCH_THRESHOLD`
/// single-request batches in a row bring it back to the initial interval,
/// where further single batches keep it.
pub proof fn law_interval_adapts(s: BatchInterval, n: nat, batch_size: int)
    requires
        s.consecutive_singles as int + n <= u32::MAX,
    ensures
        batch_size > 1 ==> s.spec_after(batch_size).interval_ms == GROUP_COMMIT_MIN_INTERVAL_MS,
        n >= GROUP_COMMIT_SINGLE_BATCH_THRESHOLD ==> after_singles(s, n).interval_ms
            == GROUP_COMMIT_INITIAL_INTERVAL_MS,
        after_singles(s, n).consecutive_singles == s.consecutive_singles + n,
    decreases n,
{
    if n > 0 {
        law_interval_adapts(s, (n - 1) as nat, batch_size);
    }
}

/// A batch of several requests starts the count of single batches afresh:
/// after it the interval is the minimum and stays so for the next
/// `GROUP_COMMIT_SINGLE_BATCH_THRESHOLD - 1` single batches; the
/// `GROUP_COMMIT_SINGLE_BATCH_THRESHOLD`-th single batch in a row brings back
/// the initial interval.
pub proof fn law_burst_restarts_single_count(s: BatchInterval, batch_size: int, n: nat)
    requires
        batch_size > 1,
        n <= GROUP_COMMIT_SINGLE_BATCH_THRESHOLD,
    ensures
        s.spec_after(batch_size).consecutive_singles == 0,
        after_singles(s.spec_after(batch_size), n).consecutive_singles == n,
        n < GROUP_COMMIT_SINGLE_BATCH_THRESHOLD ==> after_singles(s.spec_after(batch_size), n).interval_ms
            == GROUP_COMMIT_MIN_INTERVAL_MS,
        n == GROUP_COMMIT_SINGLE_BATCH_THRESHOLD ==> after_singles(
            s.spec_after(batch_size),
            n,
        ).interval_ms == GROUP_COMMIT_INITIAL_INTERVAL_MS,
    decreases n,
{
    if n > 0 {
        law_burst_restarts_single_count(s, batch_size, (n - 1) as nat);
    }
}

} // verus!
