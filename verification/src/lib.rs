//! Client-side core for a tablet-partitioned columnar store.
//!
//! The library encodes primary keys into byte strings that sort as the keys
//! do, keeps track of where the tablets of a table are, decides how one call
//! is carried out against the replicas of a tablet, decodes the batches of
//! rows that come back, and drives a scan across the tablets of a table.
//! It does no input or output of its own: a scan says what it waits for and
//! is told how that ended.

pub mod backoff;
pub mod batch;
pub mod endian;
pub mod error;
pub mod key;
pub mod key_laws;
pub mod meta_cache;
pub mod opid;
pub mod pb;
pub mod replica;
pub mod row;
pub mod scan_laws;
pub mod scanner;
pub mod schema;
pub mod tablet;
pub mod timeout;
pub mod wire;
