//! A gRPC core: wire framing, status, metadata, timeouts, routing and the
//! call state machines of both sides of an RPC.
//!
//! The crate decides; it performs no network I/O. Whoever drives a connection
//! hands in what arrived and carries out what comes back.

pub mod binary;
pub mod buffers;
pub mod client;
pub mod codec;
pub mod headers;
pub mod interceptor;
pub mod interop;
pub mod metadata;
pub mod retry;
pub mod rpc;
pub mod server;
pub mod status;
pub mod text;
pub mod tls;
pub mod transport;
