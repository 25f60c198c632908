//! Verified core of the braid command-line tool: the text parsers, the
//! AGENTS.md injection lens, and the decision logic of its commands.
//!
//! - `text`: byte and UTF-8 helpers shared by the parsers (search, trimming,
//!   line splitting, decimal numbers).
//! - `inject`, `lens`, `inject_checks`: locating the `<braid-seed>` block in
//!   AGENTS.md, replacing its content, the laws of that get/set pair, and the
//!   age and quality checks of an injected block.
//! - `seed_render`: the text of a seed injection.
//! - `trace`: spec references in source comments.
//! - `task`: parsing of issue-tracker JSON lines.
//! - `wrap`: classification of a wrapped tool's output.
//! - `error`: the four-part error type and its renderings.
//! - `daemon`: socket and lock paths, the lock protocol, adaptive group
//!   commit, and request identifiers.
//! - `git`: parsing of git command output.
//! - `export`, `namespaces`: the namespace rendering of spec elements.
//! - `witness`: the report text of a stale test witness.
//! - `rpc`: what the daemon does with each JSON-RPC request line.
//! - `routing`: the MCP tool and arguments a command line command is sent
//!   to the daemon as.
//! - `completion`: how a task's completion is justified when it is closed.
pub mod text;
pub mod inject;
pub mod lens;
pub mod inject_checks;
pub mod trace;
pub mod task;
pub mod wrap;
pub mod error;
pub mod daemon;
pub mod git;
pub mod export;
pub mod namespaces;
pub mod seed_render;
pub mod witness;
pub mod rpc;
pub mod routing;
pub mod completion;
