# moltis_agents (message conversion)

Turns stored and provider-format JSON chat messages into typed chat messages,
verified with Verus.

- `src/json.rs` — the JSON model (`JsonValue` and its view `Json`), member
  lookup, and JSON text parsing and printing through `serde_json`.
- `src/text.rs` — character-level helpers: equality, trimming, building strings.
- `src/chat.rs` — chat messages, content parts, tool calls and their views.
- `src/media.rs` — data URIs, image MIME guesses, document paths under the
  data directory, session media lookups and base64 encoding of loaded images.
- `src/tool_call.rs` — tool-call metadata and argument decoding.
- `src/tool_result.rs` — the byte limit on tool results.
- `src/user.rs` — user messages: content, documents, sender names.
- `src/convert.rs` — the conversion itself, stated as a step function over a
  state of messages and pending tool-call ids.
- `src/requests.rs` — the session media images a conversion needs loaded.
- `src/laws.rs` — properties of the conversion proved over the specifications.
- `app/lib.rs` — the I/O around it: `serde_json` values and files on disk.
