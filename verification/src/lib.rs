//! A container log-capture library: a verified binary frame codec for the
//! per-container record stream, the formatting and drain logic of the stream
//! forwarder, a session-lifecycle registry that keeps at most one session per
//! identifier, and the request-level rules of the control gateway (sink-path
//! derivation and endpoint dispatch).
//!
//! All I/O — the unix-socket control server, opening pipes and output files,
//! the async read/write loops — lives outside this library and hands it plain
//! values.

pub mod codec;
pub mod forwarder;
pub mod frame;
pub mod plugin_api;
pub mod registry;
pub mod varint;
