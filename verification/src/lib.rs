//! A replicated, schema-aware document store for small teams of peer
//! workstations coordinating through a central relay.
//!
//! Records live in named typed trees, carry monotonic meta/data iteration
//! counters, may be versioned (draft/released revision chains) and may only
//! be mutated by the node at the head of their check-out queue. Nodes
//! reconcile through tree overviews, targeted record requests and hot-sync
//! events relayed by a central server.

pub mod alist;
pub mod borrows;
pub mod common;
pub mod datetime;
pub mod db;
pub mod evolution;
pub mod ext;
pub mod index;
pub mod journal;
pub mod key_pool;
pub mod keys;
pub mod node;
pub mod opaque;
pub mod record;
pub mod schema;
pub mod store;
pub mod sync;
pub mod sync_client;
pub mod sync_common;
pub mod sync_server;
pub mod text;
pub mod tree;
pub mod version;
