//! Peer endpoint discovery over a public rendezvous channel.
//!
//! The library holds the verified core: the configuration parser, the wire
//! format of peer updates, the rendezvous identities and message
//! classification, and the reconciliation state machine.

pub mod args;
pub mod discover;
pub mod orchestrator;
pub mod primitives;
pub mod signaling;
pub mod text;
pub mod wg;
