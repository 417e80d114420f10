# kiro_rs

The core of a service that offers the Anthropic Messages interface on top of Kiro.
The library is written in Rust and verified with Verus: each function states what
it returns or changes, and the statements are proved.

- `src/stream.rs`, `src/buffered.rs`: turning the events of the upstream into the
  events of one message, with the model in `src/stream_model.rs`.
- `src/sse.rs`, `src/protocol.rs`: the events of a message and the order they must
  keep; `src/stream_laws.rs` proves that they keep it.
- `src/passage.rs`, `src/thinking_laws.rs`, `src/drain_laws.rs`: proofs that text, thinking and tool calls
  arrive as they were written, however the upstream cuts them.
- `src/thinking.rs`, `src/invoke.rs`, `src/fence.rs`, `src/stray.rs`,
  `src/xml_leak.rs`, `src/content_blocks.rs`: what the model writes into its text,
  thinking and tool calls among it; `src/stray_laws.rs` proves that nothing but stray
  words is cut off for them.
- `src/tool_json.rs`, `src/tokens.rs`, `src/names.rs`, `src/ids.rs`: tool calls that
  arrive in fragments, counts of tokens, names and identifiers.
- `src/search_*.rs`: answering a request with web searches. `SearchLoop` decides
  what is done next; `src/search_laws.rs` and `src/search_runs.rs` prove that it ends,
  that it accounts for every round and that its events are in order.
- `src/endpoint/`, `src/error.rs`, `src/kiro_version.rs`: how requests are addressed,
  headed and shaped, and what a refusal means.
- `src/json.rs`, `src/text.rs`: JSON values and texts.

`app/` holds the service around it: requests, channels and timers.
