//! A reliability and ordering layer for an unreliable, unordered datagram
//! transport: wrap-aware sequence numbering, sliding-window acknowledgment
//! bitfields, per-endpoint connection state, and liveness classification.

pub mod ack_record;
pub mod addr;
mod clock;
pub mod connection;
pub mod error;
pub mod packet;
pub mod registry;
pub mod sent_window;
pub mod sequence;
pub mod socket_state;
pub mod wire;
