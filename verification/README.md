# codex_api

Adapters between a conversation model and two wire protocols, Chat Completions and
Anthropic Messages, verified with Verus.

- `src/` is the library: the mappings of conversations to requests, prompt caching, the
  state machines that turn event streams into events, and the rules for retries. Every
  contract is stated over views of the types (`*View`). At the end of a module stand its
  laws, as proof functions.
- `tests/` runs it on concrete values.
- `app/` runs turns over HTTP: JSON on the wire, event streams, timeouts, sleeping.

What `serde_json`, `http`, `url` and the standard library do is taken on trust, in
`src/json.rs`, `src/headers.rs`, `src/anthropic_cache.rs`, `src/text.rs` and
`src/retry.rs`; the comment on each such item says what is claimed.
