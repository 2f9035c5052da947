# codex_gateway_core

A local gateway to Codex: it keeps imported accounts, shows their access tokens to the upstream, and
offers clients a small HTTP API under one key of its own. The rules of the gateway are written in
Rust with contracts that Verus proves.

- `src/text.rs`, `src/json.rs`: texts and JSON values, with the passage to and from `serde_json`.
- `src/outside.rs`: the clock, chance, base64, lossy decoding and reason phrases.
- `src/account.rs`, `src/config.rs`, `src/store.rs`: accounts and their tokens, the configuration,
  the gateway key, and the files they are kept in.
- `src/gateway/http.rs`, `request.rs`: headers, paths and the gateway key; what a request asks of
  the upstream, and how it is sent there.
- `src/gateway/chat.rs`, `images.rs`, `multipart.rs`: chat and image requests, and forms.
- `src/gateway/answer.rs`, `probe.rs`: what comes back from the upstream.
- `src/gateway/dispatch.rs`, `state.rs`: a request on its way through the accounts, and what the
  gateway keeps from one request to the next.
- `app/`: the command line, the files, the HTTP server and the requests to the upstream.

What is left to trust stands in `src/outside.rs` and `src/json.rs`, one small function for each
outside call, with its contract, and in one line of `src/text.rs`.
