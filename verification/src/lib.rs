//! Client-side transport for JSON-RPC messages carried in length-prefixed
//! frames over a peer's byte streams.
//!
//! The library holds the logic of the transport and none of its I/O. A
//! caller owns the streams; it hands the bytes it read to [`router::Inbound`]
//! and [`diagnostics::DiagnosticBuffer`], writes the bytes that
//! [`dispatcher::dispatch`] returns, and fulfils the handles that come out
//! of the [`pending::PendingTable`].
//!
//! - [`wire`]: the frame format, and what holds of it.
//! - [`jsonrpc`]: reading and writing frame headers.
//! - [`protocol`]: JSON values to frames and back.
//! - [`pending`]: the requests that await their response.
//! - [`dispatcher`]: the outbound path.
//! - [`router`]: the inbound path.
//! - [`diagnostics`]: the diagnostic path.
//! - [`jsonrpc_types`]: the envelopes.
//! - [`json`]: the calls into `serde_json`.

pub mod diagnostics;
pub mod dispatcher;
pub mod json;
pub mod jsonrpc;
pub mod jsonrpc_types;
pub mod pending;
pub mod protocol;
pub mod router;
pub mod wire;
