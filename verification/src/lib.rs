//! Namespaced key-value storage helpers over a flat byte-string store.
//!
//! The crate offers a collision-free encoding of (namespace chain, key)
//! pairs into flat keys, read-only and read-write views scoped to one
//! namespace, typed buckets with load/save/update operations, and
//! maintenance of secondary indexes, all specified against a map model of
//! the underlying store.

mod encoding;
mod store;

pub mod bucket;
pub mod codec;
pub mod errors;
pub mod index;
pub mod prefix;
pub mod record;

pub use bucket::{bucket, bucket_read, Bucket, ReadonlyBucket};
pub use index::{add_key, index, load_keys, remove_key, write_index, Index, IndexEntry};
pub use prefix::{prefixed, prefixed_ro, PrefixedStorage, ReadonlyPrefixedStorage};
