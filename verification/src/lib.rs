//! A Redis-backed host for the `wasi:keyvalue` interfaces, with every decision
//! it takes stated as a contract and proved.
//!
//! All data lives in Redis under keys of the form `wasi_kv:{bucket}:{user_key}`,
//! so that buckets are namespaces within one Redis database. An empty identifier
//! stands for the bucket `default`.
//!
//! The library does no input or output. A call is cut where it meets the
//! server: it finds its bucket, waits for a connection ([`Call::connected`]),
//! gives the command to send, and reads the reply.

pub mod atomics;
pub mod batch;
pub mod call;
pub mod command;
pub mod ctx;
pub mod error;
pub mod glob;
pub mod keys;
pub mod keyspace;
pub mod store;
pub mod table;

pub use atomics::increment_reply;
pub use batch::get_many_reply;
pub use call::{reply, Call, Exchange};
pub use ctx::{WasiKeyValueRedisCtx, WasiKeyValueRedisCtxBuilder};
pub use error::{Error, StoreError};
pub use keys::{bucket_pattern, encode_key, strip_prefix, KEY_PREFIX};
pub use store::{list_keys_reply, KeyResponse, WasiKeyValueRedis};
pub use table::{Bucket, BucketHandle};
