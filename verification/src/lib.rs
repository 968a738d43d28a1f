//! An in-memory key/value cache speaking a subset of the memcached text
//! protocol, with durable binary snapshots.
//!
//! The crate holds the verified core of the server: the snapshot codec, the
//! shard store, the request parser and response serializer, the worker step
//! function, and the routing layer. The surrounding process — sockets,
//! threads, signals, forked snapshot children — lives outside the library and
//! hands plain values in and out.

pub mod codec;
pub mod db;
pub mod handler;
pub mod memcache;
pub mod num;
pub mod server;
pub mod shards;
pub mod text;
pub mod types;
pub mod worker;

pub use types::HorcruxError;
