# bpftrace_ls

A language server for bpftrace scripts. The decisions and data handling of the server are a
library verified with Verus; a thin program around it does the input and output.

## Layout

- `src/` — the verified library:
  - `btf_rd.rs` reads BTF (the kernel's type information), in the machine's byte order: the header, the type records,
    function lookup by name, C-style formatting of types, resolution of pointers and
    qualifiers, and walking member chains such as `args.path->dentry->d_inode`.
  - `cmd_mod.rs` parses `bpftrace --version`, derives what that version supports, and builds
    the command lines that run bpftrace (directly or through `sudo -n`).
  - `log_mod.rs` reads the log settings (`BPFTRACE_LS_LOG_MASK`, `BPFTRACE_LS_LOG_VERBOSE`).
  - `server.rs` classifies and frames protocol messages, reads the `Content-Length` header,
    answers unparsable messages with the JSON-RPC parse error, decides when the reading side
    stops, and turns bpftrace's error output into diagnostics.
  - `message.rs` reads each client message (through the `json` crate) into the fields the
    server uses, and decides what a notification does to the open documents.
  - `documents.rs` keeps the open documents by URI and decides when diagnostics are due and
    when they are still current.
  - `navigation.rs` chooses the definition or the referenced macro once the names around the
    cursor are known.
  - `text.rs` holds the character-level helpers (decimal numbers, trimming, splitting).
- `app/` — the program: stdin/stdout, threads, JSON, running bpftrace, reading BTF files.
- `tests/` — tests of the library on concrete values.
