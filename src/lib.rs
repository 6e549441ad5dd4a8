//! The opening handshake of a WebSocket server: a streaming parser for the
//! request's header block, the per-connection handshake state machine, the
//! registry of live connections and the dispatch of readiness events.
//! Socket I/O and the polling loop are driven by the caller; this crate
//! decides what each event does.

pub mod client;
pub mod parser;
pub mod registry;
pub mod security;
pub mod server;
pub mod web_socket_server;
