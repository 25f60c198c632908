//! The braid error type with four-part error information: what happened,
//! why, how to fix it, and the governing spec reference.
use vstd::prelude::*;
use crate::text::{
    bytes_to_string, lemma_ascii_valid, push_str_bytes, utf8,
};

verus! {

broadcast use vstd::utf8::group_utf8_lib;

/// The kind of an input/output failure, as far as error reporting tells
/// kinds apart.
#[derive(Clone, Copy, Debug, PartialEq, Eq, Structural)]
pub enum IoErrorKind {
    NotFound,
    PermissionDenied,
    AlreadyExists,
    Other,
}

/// An input/output failure: its kind and its message.
#[derive(Clone, Debug)]
pub struct IoFailure {
    pub kind: IoErrorKind,
    pub message: String,
}

impl IoFailure {
    /// A failure of the given kind with the given message.
    pub fn new(kind: IoErrorKind, message: &str) -> (r: IoFailure)
        ensures
            r.kind == kind,
            r.message@ == message@,
    {
        IoFailure { kind, message: message.to_owned() }
    }

    /// A failure of kind `Other` with the given message.
    pub fn other(message: &str) -> (r: IoFailure)
        ensures
            r.kind == IoErrorKind::Other,
            r.message@ == message@,
    {
        IoFailure { kind: IoErrorKind::Other, message: message.to_owned() }
    }
}

/// A failure of the store kernel's computation: its recovery hint and its
/// message.
#[derive(Clone, Debug)]
pub struct KernelFailure {
    pub recovery_hint: &'static str,
    pub message: String,
}

impl KernelFailure {
    /// A kernel failure with the given recovery hint and message.
    pub fn new(recovery_hint: &'static str, message: &str) -> (r: KernelFailure)
        ensures
            r.recovery_hint@ == recovery_hint@,
            r.message@ == message@,
    {
        KernelFailure { recovery_hint, message: message.to_owned() }
    }
}

/// Four-part error information.
///
/// Every error provides: what happened, why it happened, how to fix it, and
/// which spec element governs it.
#[derive(Clone, Copy, Debug)]
pub struct ErrorInfo {
    /// What went wrong (one line).
    pub what: &'static str,
    /// Why it happened (root cause).
    pub why: &'static str,
    /// How to fix it (actionable command or instruction).
    pub fix: &'static str,
    /// Governing spec reference.
    pub spec_ref: &'static str,
}

/// Braid error type.
#[derive(Debug)]
pub enum BraidError {
    /// Error from the kernel (pure computation).
    Kernel(KernelFailure),
    /// IO error (filesystem, network).
    Io(IoFailure),
    /// EDN parse error.
    Parse(String),
    /// Datalog query parse error (more specific hint than generic Parse).
    DatalogParse(String),
    /// Input validation error (bad arguments, out-of-range values).
    Validation(String),
    /// Query returned no results (not an error per se, but needs guidance).
    EmptyResult(String),
}

/// How an error is rendered.
#[derive(Clone, Copy, Debug, PartialEq, Eq, Structural)]
pub enum OutputMode {
    /// Structured JSON for machine parsing.
    Json,
    /// Navigative three-part text for agents.
    Agent,
    /// Four-part text for humans.
    Human,
}

/// Error information as text: (what, why, fix, spec_ref).
pub open spec fn info_view(i: ErrorInfo) -> (Seq<char>, Seq<char>, Seq<char>, Seq<char>) {
    (i.what@, i.why@, i.fix@, i.spec_ref@)
}

/// The error information of an IO failure of a given kind.
pub open spec fn io_info(k: IoErrorKind) -> (Seq<char>, Seq<char>, Seq<char>, Seq<char>) {
    match k {
        IoErrorKind::NotFound => (
            "store not found"@,
            "the .braid directory does not exist at the specified path"@,
            "braid init"@,
            "INV-STORE-001"@,
        ),
        IoErrorKind::PermissionDenied => (
            "permission denied"@,
            "insufficient filesystem permissions on .braid directory"@,
            "Check permissions: ls -la .braid/"@,
            "INV-STORE-001"@,
        ),
        IoErrorKind::AlreadyExists => (
            "store already exists"@,
            "a .braid directory already exists at this location"@,
            "Use existing store or choose a different --path"@,
            "INV-STORE-001"@,
        ),
        IoErrorKind::Other => (
            "IO error"@,
            "filesystem operation failed"@,
            "Check disk space and permissions on .braid/"@,
            "INV-STORE-001"@,
        ),
    }
}

/// The error information of each error.
pub open spec fn spec_error_info(e: BraidError) -> (Seq<char>, Seq<char>, Seq<char>, Seq<char>) {
    match e {
        BraidError::Kernel(k) => (
            "kernel computation error"@,
            k.recovery_hint@,
            "Check inputs and retry. Run `braid status` for store state."@,
            "INV-STORE-001"@,
        ),
        BraidError::Io(f) => io_info(f.kind),
        BraidError::Parse(_) => (
            "parse error"@,
            "input is not valid EDN syntax"@,
            "Check EDN: keywords use :ns/name, strings use \"quotes\", maps use {}"@,
            "INV-INTERFACE-009"@,
        ),
        BraidError::DatalogParse(_) => (
            "Datalog parse error"@,
            "query expression is not valid Datalog syntax"@,
            "Syntax: [:find ?var :where [?var :attribute value]]. Example: [:find ?e ?v :where [?e :db/doc ?v]]"@,
            "INV-QUERY-001"@,
        ),
        BraidError::Validation(_) => (
            "validation error"@,
            "input values are outside allowed ranges"@,
            "Run `braid <command> --help` for valid argument formats"@,
            "INV-INTERFACE-009"@,
        ),
        BraidError::EmptyResult(_) => (
            "no results"@,
            "no datoms matched the query criteria"@,
            "braid query --attribute :db/ident  # list all entities"@,
            "INV-INTERFACE-012"@,
        ),
    }
}

/// The variant-specific detail of an error.
pub open spec fn spec_detail(e: BraidError) -> Seq<char> {
    match e {
        BraidError::Kernel(k) => k.message@,
        BraidError::Io(f) => f.message@,
        BraidError::Parse(s) => s@,
        BraidError::DatalogParse(s) => s@,
        BraidError::Validation(s) => s@,
        BraidError::EmptyResult(s) => s@,
    }
}

/// The four-part text of an error: `error: WHAT`, `why: DETAIL`, `fix: FIX`
/// and `ref: SPEC_REF`, on lines of their own.
pub open spec fn spec_display(e: BraidError) -> Seq<u8> {
    let i = spec_error_info(e);
    utf8("error: "@) + utf8(i.0) + utf8("\n  why: "@) + utf8(spec_detail(e)) + utf8("\n  fix: "@)
        + utf8(i.2) + utf8("\n  ref: "@) + utf8(i.3)
}

/// The agent rendering of an error: what, detail, then fix and reference.
pub open spec fn spec_agent_render(e: BraidError) -> Seq<u8> {
    let i = spec_error_info(e);
    utf8("error: "@) + utf8(i.0) + utf8("\n\n"@) + utf8(spec_detail(e)) + utf8("\n\nfix: "@)
        + utf8(i.2) + utf8(" | ref: "@) + utf8(i.3) + utf8("\n"@)
}

/// The pretty-printed JSON document that `serde_json` makes of an object
/// with one member, `outer`, whose value is the object of the string
/// `fields` (key, value).
pub uninterp spec fn nested_json_text(
    outer: Seq<char>,
    fields: Seq<(Seq<char>, Seq<char>)>,
) -> Seq<char>;

/// The fields as pairs of character sequences.
pub open spec fn fields_view(fields: Seq<(&str, &str)>) -> Seq<(Seq<char>, Seq<char>)> {
    fields.map_values(|f: (&str, &str)| (f.0@, f.1@))
}

/// Pretty-prints the JSON object `{outer: {key: value, ...}}`.
///
/// Turns the pairs into a `serde_json::Map` of strings, nests it under
/// `outer` and calls `serde_json::to_string_pretty`; the text is named
/// `nested_json_text` of the key and the pairs. Printing a value made only of
/// string-keyed maps and strings does not fail: `to_string_pretty` fails only
/// when a `Serialize` impl fails or a map has non-string keys.
#[verifier::external_body]
fn nested_json(outer: &str, fields: &Vec<(&str, &str)>) -> (r: Option<String>)
    ensures
        r is Some,
        r matches Some(s) ==> s@ == nested_json_text(outer@, fields_view(fields@)),
{
    let mut inner = serde_json::Map::new();
    for (k, v) in fields.iter() {
        inner.insert(k.to_string(), serde_json::Value::String(v.to_string()));
    }
    let mut doc = serde_json::Map::new();
    doc.insert(outer.to_string(), serde_json::Value::Object(inner));
    serde_json::to_string_pretty(&serde_json::Value::Object(doc)).ok()
}

/// The JSON rendering of an error: `{"error": {"what", "why", "fix",
/// "spec_ref"}}`, with the detail as `why`.
pub open spec fn spec_json_render(e: BraidError) -> Seq<char> {
    let i = spec_error_info(e);
    nested_json_text(
        "error"@,
        seq![("what"@, i.0), ("why"@, spec_detail(e)), ("fix"@, i.2), ("spec_ref"@, i.3)],
    )
}

impl BraidError {
    /// Returns structured four-part error information.
    ///
    /// Every variant produces: what happened, why, how to fix it, and the
    /// governing spec reference.
    pub fn error_info(&self) -> (r: ErrorInfo)
        ensures
            info_view(r) == spec_error_info(*self),
    {
        match self {
            BraidError::Kernel(k) => ErrorInfo {
                what: "kernel computation error",
                why: k.recovery_hint,
                fix: "Check inputs and retry. Run `braid status` for store state.",
                spec_ref: "INV-STORE-001",
            },
            BraidError::Io(f) => match f.kind {
                IoErrorKind::NotFound => ErrorInfo {
                    what: "store not found",
                    why: "the .braid directory does not exist at the specified path",
                    fix: "braid init",
                    spec_ref: "INV-STORE-001",
                },
                IoErrorKind::PermissionDenied => ErrorInfo {
                    what: "permission denied",
                    why: "insufficient filesystem permissions on .braid directory",
                    fix: "Check permissions: ls -la .braid/",
                    spec_ref: "INV-STORE-001",
                },
                IoErrorKind::AlreadyExists => ErrorInfo {
                    what: "store already exists",
                    why: "a .braid directory already exists at this location",
                    fix: "Use existing store or choose a different --path",
                    spec_ref: "INV-STORE-001",
                },
                IoErrorKind::Other => ErrorInfo {
                    what: "IO error",
                    why: "filesystem operation failed",
                    fix: "Check disk space and permissions on .braid/",
                    spec_ref: "INV-STORE-001",
                },
            },
            BraidError::Parse(_) => ErrorInfo {
                what: "parse error",
                why: "input is not valid EDN syntax",
                fix: "Check EDN: keywords use :ns/name, strings use \"quotes\", maps use {}",
                spec_ref: "INV-INTERFACE-009",
            },
            BraidError::DatalogParse(_) => ErrorInfo {
                what: "Datalog parse error",
                why: "query expression is not valid Datalog syntax",
                fix: "Syntax: [:find ?var :where [?var :attribute value]]. Example: [:find ?e ?v :where [?e :db/doc ?v]]",
                spec_ref: "INV-QUERY-001",
            },
            BraidError::Validation(_) => ErrorInfo {
                what: "validation error",
                why: "input values are outside allowed ranges",
                fix: "Run `braid <command> --help` for valid argument formats",
                spec_ref: "INV-INTERFACE-009",
            },
            BraidError::EmptyResult(_) => ErrorInfo {
                what: "no results",
                why: "no datoms matched the query criteria",
                fix: "braid query --attribute :db/ident  # list all entities",
                spec_ref: "INV-INTERFACE-012",
            },
        }
    }

    /// Returns a human-readable recovery suggestion for this error: the fix
    /// of its error information.
    pub fn recovery_hint(&self) -> (r: &'static str)
        ensures
            r@ == spec_error_info(*self).2,
    {
        self.error_info().fix
    }

    /// The variant-specific detail text.
    pub fn detail_string(&self) -> (r: String)
        ensures
            r@ == spec_detail(*self),
    {
        match self {
            BraidError::Kernel(k) => k.message.clone(),
            BraidError::Io(f) => f.message.clone(),
            BraidError::Parse(e) => e.clone(),
            BraidError::DatalogParse(e) => e.clone(),
            BraidError::Validation(e) => e.clone(),
            BraidError::EmptyResult(e) => e.clone(),
        }
    }

    /// The four-part text of this error (error, why, fix, ref).
    pub fn to_string(&self) -> (r: String)
        ensures
            utf8(r@) == spec_display(*self),
    {
        let info = self.error_info();
        let detail = self.detail_string();
        let mut v: Vec<u8> = Vec::new();
        proof {
            lemma_ascii_valid(v@);
        }
        push_str_bytes(&mut v, "error: ");
        push_str_bytes(&mut v, info.what);
        push_str_bytes(&mut v, "\n  why: ");
        push_str_bytes(&mut v, detail.as_str());
        push_str_bytes(&mut v, "\n  fix: ");
        push_str_bytes(&mut v, info.fix);
        push_str_bytes(&mut v, "\n  ref: ");
        push_str_bytes(&mut v, info.spec_ref);
        assert(v@ =~= spec_display(*self));
        bytes_to_string(v)
    }

    /// Render this error for an output mode: structured JSON, the navigative
    /// agent text, or the four-part human text.
    pub fn render(&self, mode: OutputMode) -> (r: String)
        ensures
            mode == OutputMode::Human ==> utf8(r@) == spec_display(*self),
            mode == OutputMode::Agent ==> utf8(r@) == spec_agent_render(*self),
            mode == OutputMode::Json ==> r@ == spec_json_render(*self),
    {
        let info = self.error_info();
        let detail = self.detail_string();
        match mode {
            OutputMode::Json => {
                let mut fields: Vec<(&str, &str)> = Vec::new();
                fields.push(("what", info.what));
                fields.push(("why", detail.as_str()));
                fields.push(("fix", info.fix));
                fields.push(("spec_ref", info.spec_ref));
                assert(fields_view(fields@) =~= seq![
                    ("what"@, info.what@),
                    ("why"@, detail@),
                    ("fix"@, info.fix@),
                    ("spec_ref"@, info.spec_ref@),
                ]);
                match nested_json("error", &fields) {
                    Some(text) => text,
                    None => "{}".to_owned(),
                }
            },
            OutputMode::Agent => {
                let mut v: Vec<u8> = Vec::new();
                proof {
                    lemma_ascii_valid(v@);
                }
                push_str_bytes(&mut v, "error: ");
                push_str_bytes(&mut v, info.what);
                push_str_bytes(&mut v, "\n\n");
                push_str_bytes(&mut v, detail.as_str());
                push_str_bytes(&mut v, "\n\nfix: ");
                push_str_bytes(&mut v, info.fix);
                push_str_bytes(&mut v, " | ref: ");
                push_str_bytes(&mut v, info.spec_ref);
                push_str_bytes(&mut v, "\n");
                assert(v@ =~= spec_agent_render(*self));
                bytes_to_string(v)
            },
            OutputMode::Human => self.to_string(),
        }
    }
}

/// Every error provides all four parts: what happened, why, how to fix it,
/// and the governing spec reference are all non-empty. (A kernel failure's
/// "why" is its own recovery hint, so it is non-empty when that hint is.)
pub proof fn law_error_info_complete(e: BraidError)
    requires
        e matches BraidError::Kernel(k) ==> k.recovery_hint@.len() > 0,
    ensures
        spec_error_info(e).0.len() > 0,
        spec_error_info(e).1.len() > 0,
        spec_error_info(e).2.len() > 0,
        spec_error_info(e).3.len() > 0,
{
    reveal_strlit("kernel computation error");
    reveal_strlit("Check inputs and retry. Run `braid status` for store state.");
    reveal_strlit("store not found");
    reveal_strlit("the .braid directory does not exist at the specified path");
    reveal_strlit("braid init");
    reveal_strlit("INV-STORE-001");
    reveal_strlit("permission denied");
    reveal_strlit("insufficient filesystem permissions on .braid directory");
    reveal_strlit("Check permissions: ls -la .braid/");
    reveal_strlit("store already exists");
    reveal_strlit("a .braid directory already exists at this location");
    reveal_strlit("Use existing store or choose a different --path");
    reveal_strlit("IO error");
    reveal_strlit("filesystem operation failed");
    reveal_strlit("Check disk space and permissions on .braid/");
    reveal_strlit("parse error");
    reveal_strlit("input is not valid EDN syntax");
    reveal_strlit("Check EDN: keywords use :ns/name, strings use \"quotes\", maps use {}");
    reveal_strlit("INV-INTERFACE-009");
    reveal_strlit("Datalog parse error");
    reveal_strlit("query expression is not valid Datalog syntax");
    reveal_strlit("Syntax: [:find ?var :where [?var :attribute value]]. Example: [:find ?e ?v :where [?e :db/doc ?v]]");
    reveal_strlit("INV-QUERY-001");
    reveal_strlit("validation error");
    reveal_strlit("input values are outside allowed ranges");
    reveal_strlit("Run `braid <command> --help` for valid argument formats");
    reveal_strlit("no results");
    reveal_strlit("no datoms matched the query criteria");
    reveal_strlit("braid query --attribute :db/ident  # list all entities");
    reveal_strlit("INV-INTERFACE-012");
}

impl From<IoFailure> for BraidError {
    fn from(e: IoFailure) -> (r: BraidError) {
        BraidError::Io(e)
    }
}

impl vstd::std_specs::convert::FromSpecImpl<IoFailure> for BraidError {
    open spec fn obeys_from_spec() -> bool {
        true
    }

    open spec fn from_spec(e: IoFailure) -> BraidError {
        BraidError::Io(e)
    }
}

} // verus!
