//! A catalog of fragrance records kept in stable memory.
//!
//! Every record gets an identifier from an allocator whose counter is durable, is
//! stored under that identifier in a byte-encoded form of at most
//! [`codec::MAX_SIZE`] bytes, and can be read, replaced, removed, searched by
//! keyword, filtered by mood and listed by recency.

pub mod allocator;
pub mod catalog;
pub mod codec;
pub mod error;
pub mod listing;
pub mod model;
pub mod query;
pub mod record;
pub mod stable;
pub mod store;
pub mod text;
