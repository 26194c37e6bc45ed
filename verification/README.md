# pcl_ce_extension

The companion daemon of the PCL CE launcher: it talks to the .NET host over
a named pipe with length-prefixed JSON-RPC 2.0 frames, authenticates each
request with an HMAC-SHA256 signature over the canonical JSON of its
parameters, and signs its responses in turn.

`src/` is the library, verified with Verus:

- `ipc/protocol.rs` — frames: `[4-byte LE length][payload]`, at most 1 MiB.
- `json.rs` — the JSON value model and its canonical rendering (sorted keys,
  no whitespace), with the proof that entry order does not matter.
- `json_syntax.rs` — a model of JSON values, a parser of JSON text, and the
  proof that canonical text parses back to the value it came from.
- `auth/hmac.rs` — request signatures and the 30-second replay window.
- `rpc/` — method names, message types, error codes, dispatch and response
  signing.
- `smtc/`, `toast/`, `update/` — the content handled by each subsystem:
  playback status and commands, toast XML, update packages and the restart
  script.
- `error.rs`, `text.rs` — the error type and its messages; text rendering.

`app/` is the executable around it: environment, logging, the pipe server
loop, file writes, and the `serde` forms of the RPC types.
