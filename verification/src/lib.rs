//! A minimal bidirectional messaging core over a byte stream: length-prefixed
//! framing, hand-off queues between I/O loops and application code, connection
//! session state with a write-once liveness flag, and the server's registry
//! and event surface.

pub mod framing;
pub mod protocol;
pub mod packets;
pub mod client;
pub mod addr;
pub mod server;

pub use addr::parse_address;
