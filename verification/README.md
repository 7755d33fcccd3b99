# lspz

lspz sits between a coding agent (the LSP client) and a language server. Messages
from the client go to the server unchanged; responses from the server pass through
a chain of interceptors that drop redundant fields, merge duplicates and write the
result in a compact form. When an interceptor fails, the message is forwarded as it
came.

This crate is the verified library: every function in `src/` carries a contract
that Verus proves.

## Layout

- `src/json.rs`, `src/text.rs`: the JSON value the library works on and its model;
  text helpers (trimming, lines, decimal numbers).
- `src/json_text.rs`: reading JSON bytes into that value and writing it as text,
  both done by `serde_json`.
- `src/framing.rs`, `src/json_rpc.rs`: `Content-Length` framing and JSON-RPC
  messages, with the laws that a written frame reads back as its body and that a
  message read back from its JSON is the same message.
- `src/compact.rs`, `src/toon.rs`: the compact diagnostics format (diagnostics
  with the same message, severity and code merged into one entry with
  delta-encoded ranges) and the TOON text forms.
- `src/interceptors.rs` and `src/interceptors/`: the compressors and the chain,
  with the laws that client messages pass unchanged and that a failing interceptor
  forwards its input.
- `src/proxy.rs`: the proxy's state machine (handshake, message loop, shutdown)
  and what becomes of a server message.
- `src/config.rs`, `src/languages.rs`, `src/command.rs`, `src/init.rs`,
  `src/agent.rs`, `src/daemon/`: configuration, the built-in language table,
  backend command lines, the setup files, the agent SDK's builders and the
  daemon's status, socket path and decisions.
- `app/`: the `lspz` command: stdin/stdout and process I/O around the library.
- `tests/`: tests of the library on concrete values.
