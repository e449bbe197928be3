# tezweb

A small HTTP/1.1, HTTP/2 and HTTP/3 web framework whose core logic is
verified with Verus.

## Layout

- `src/` — the verified library. Its executable functions carry
  `requires`/`ensures` contracts that Verus proves, except the small
  trusted wrappers around outside crates and std (marked
  `#[verifier::external_body]`), whose contracts are believed as their doc
  comments say; the clock readings among them promise nothing of the time.
  - `router/` — the route trie (`model.rs`: its mathematical model and the
    routing laws; `trie.rs`: the arena trie and `Router`).
  - `http/` — request-head parsing, methods, and the response writer.
  - `common/` — headers, cookies, cache control, configuration, sessions,
    static-file paths, request ids, health, errors and status codes.
  - `middleware/` — body limit, compression, timeouts, rate limiting and the
    middleware chain.
  - `memory/` — cache-line padding, the object pool and the bump allocator's
    bookkeeping.
  - `auth.rs`, `upload.rs`, `proxy.rs`, `graphql.rs`, `graphql_serve.rs`,
    `reload.rs`, `sse.rs`,
    `tls.rs`, `extractors.rs` — authentication (Basic, Bearer, JWT),
    multipart uploads, reverse-proxy planning, GraphQL helpers, hot-reload
    decisions, server-sent events, TLS configuration and request extractors.
  - `text.rs`, `num.rs`, `strmap.rs`, `clock.rs`, `io/` — string, number and
    map helpers, clock readings and byte buffers.
- `app/` — the unverified shell around the library: sockets, the event
  loop, TLS/QUIC servers, file watching and the handler plumbing.
- `tests/` — tests of the library on concrete values.

Calls into outside crates (base64, flate2, brotli, httparse, bytes, dashmap,
tokio, rustls, async-graphql, ...) go through small trusted wrappers whose
doc comments say what their contracts claim.
