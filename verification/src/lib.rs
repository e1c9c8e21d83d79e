//! Wire protocol for a tunneled, multiplexed transport: message framing,
//! handshake payloads, chunked delivery with reassembly, and per-connection
//! session routing, all with verified contracts.

pub mod endian;
pub mod error;
pub mod message;
pub mod handshake;
pub mod reassembly;
pub mod session;
pub mod registry;
