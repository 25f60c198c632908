# braid

The verified core of the `braid` command-line tool, written in Verus.

- `src/` is the library. Each public function states in its `ensures` what it
  returns, over spec functions on byte and character sequences; the laws of
  the library (the get/set laws of the AGENTS.md injection, the adaptive
  group-commit interval, the output classification of wrapped tools, the
  four-part error information, the uniqueness of the sorted export) are
  public proof functions next to the code they speak of.
- `tests/` runs the library on concrete inputs.
- `app/` holds what Verus does not see: file, process and socket I/O, the
  clock, and the `Display` impls of the error types.

The commands that read and write the datom store (status, task, topology,
witness, verify, write, trace generation), the daemon's server loop and
request handlers, the disk layout and the live store run on the `braid_kernel`
crate, which is not part of this project's sources; they are not in this
library. What they decide without the store (the dispatch of daemon requests,
the routing of commands to the daemon, the lock, batch and checkpoint
decisions, the completion decision of a closed task, the text parsers and
renderers) is.

Outside crates: `blake3` (request idents), `serde_json` (JSON rendering of
errors, parsing of daemon requests, request ids) and `libc` (process
liveness, in `app/` only). Their calls from `src/` go through small trusted
wrappers whose contracts are stated in their doc comments.
