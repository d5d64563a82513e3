//! A permissioned, authority-signed blockchain core with a gossip overlay.
//!
//! The crate models blocks and transactions with content-addressed hashes
//! and author signatures, keeps them in verified in-memory indices, and
//! drives a publish/subscribe shard overlay as a state machine whose
//! transport actions are performed by the caller.

pub mod authorities;
pub mod backend;
pub mod block;
pub mod blockchain;
pub mod blocks_index;
pub mod bytes;
pub mod codec;
pub mod crypto;
pub mod encoding;
pub mod hash;
pub mod json;
pub mod keys;
pub mod message;
pub mod shard;
pub mod transaction;
pub mod tx_index;
