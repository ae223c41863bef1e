//! Verified core of a logical-replication-to-object-store pipeline.
//!
//! The library models replication events, encodes them into length-prefixed
//! self-describing records, groups records into fixed-size chunks, and derives
//! resumption state from the last chunk written to the sink. All decisions are
//! made here; the surrounding binary performs the source and sink I/O.

pub mod bytes_be;
pub mod value;
pub mod codec;
pub mod event;
pub mod schema;
pub mod convert;
pub mod keys;
pub mod chunk;
pub mod resume;
pub mod stream;
pub mod snapshot;
pub mod laws;
