//! Core of a minimal TCP line relay: a verified connection registry, a
//! bounded lossy broadcast bus with per-subscriber cursors, the per-connection
//! fan-out engine that ties the two together, and the client-side message
//! formatting and mention-highlighting decisions. The surrounding I/O layer
//! owns the sockets and the runtime; everything that decides what is
//! delivered, to whom, and in what order lives here.

pub mod bus;
pub mod client;
pub mod registry;
pub mod server;
