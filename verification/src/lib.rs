//! Verified core of a peer-to-peer block synchronization node: the shared
//! protocol vocabulary, the thin state diff model, the state-diff sync engine,
//! the peer manager, the network manager's session bookkeeping, the wire codec
//! and the RPC-facing data model.

pub mod protocol;
pub mod state_diff;
pub mod sync;
pub mod codec;
pub mod peer_manager;
pub mod network_manager;
pub mod rpc;
