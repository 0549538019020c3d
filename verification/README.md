# grpc_rs

A gRPC core whose behaviour is stated in contracts and proved with Verus, and a
transport around it.

- `src/` is the library: wire framing and gzip, status codes, metadata, timeouts,
  routing, interceptor chains, retries, and the state machines of both sides of an
  RPC. It performs no network I/O: it says what to await and what to send. Every
  function has a contract; the `law_` functions state what holds across functions,
  and `src/rpc.rs` what holds of an RPC from the client through the server and back.
- `app/` drives HTTP/2 connections with `h2`, `tokio` and `rustls`, and holds the
  interoperability and benchmark programs.
- `tests/` runs the library on concrete values, with the outside crates linked.

The functions of `bytes`, `http`, `flate2`, `base64` and `std` that the library
calls are described by contracts that are not proved. Each stands in one place,
with a comment that says what is relied on: `src/buffers.rs`, `src/headers.rs`,
`src/text.rs`, `src/codec/gzip.rs`, `src/binary.rs`, `src/transport/mod.rs` and
`src/transport/client.rs`.
