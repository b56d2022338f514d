//! A verified read path for a bucket/key-addressed object store.
//!
//! The library contains the transport-agnostic core of an object-store
//! reader: parsing bucket/key addresses, planning chunked range reads,
//! assembling concurrently fetched chunks into a single buffer, following
//! paginated listings, and normalizing object metadata. All names (buckets,
//! keys, prefixes, continuation tokens, entity tags) are byte strings.
//! The network transport itself lives outside the library and feeds the
//! engines here with plain values.

pub mod addr;
pub mod errors;
pub mod fetch;
pub mod listing;
pub mod meta;
pub mod plan;

pub use errors::StoreError;
