//! A sharded, persistent, open-addressed hash table of fixed-width keys and
//! 64-bit values, and the framed request protocol that serves it.
//!
//! The crate holds the decisions of the store: the byte layout of a slot, the
//! probing of a shard, the routing of a key to its shard, the validation of
//! a storage directory, and the framing and dispatch of requests. It performs
//! no input or output: each operation is a small state machine that says
//! which bytes to fetch or to store next, and the caller carries that out.
//! An operation can also be carried out at once on a shard that is held in
//! memory.
//!
//! What the operations guarantee of a shard, of a table and of a stream is
//! proved in `shard_laws`, `table_laws` and `framing_laws`.
pub mod codec;
pub mod framing_laws;
pub mod kv;
pub mod persistent_hashtable;
pub mod rpc;
pub mod shard_laws;
pub mod shard_names;
pub mod storage_file;
pub mod stream_handler;
pub mod table_laws;
pub mod wire;
