//! The verified core of a small bitcoin node: the chain of block headers, the
//! synchronisation state machine, and the peer handshake.

pub mod block;
pub mod bytes;
pub mod consensus;
pub mod error;
pub mod header;
pub mod header_calls;
pub mod header_chain;
pub mod header_laws;
pub mod header_map;
pub mod logging;
pub mod message;
pub mod network;
pub mod node;
pub mod node_calls;
pub mod node_laws;
pub mod p2p;
pub mod p2p_calls;
pub mod p2p_laws;
pub mod wire;
