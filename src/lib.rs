//! Durable Raft storage core for a replicated key-value node: the log store,
//! the consensus metadata records, the applied state machine, the snapshot
//! pipeline and the byte layout of the key spaces, with their contracts; and
//! the single-node key-value store with its watch events.

pub mod codec;
pub mod image;
pub mod key_order;
pub mod kv_store;
pub mod log_store;
pub mod meta;
pub mod records;
pub mod rocks_client;
pub mod snapshot_codec;
pub mod state_machine;
pub mod store;
pub mod types;
