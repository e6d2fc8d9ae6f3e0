//! Chunked storage of large binary blobs in an annotation-indexed entity store.
//!
//! A blob is split into fixed-size chunks, each persisted as its own entity and
//! linked to the first one (the root) through annotations. Reconstruction finds
//! every chunk again through annotation queries and concatenates the payloads
//! in ascending part order, reporting exactly which parts could not be found.

pub mod entity;
pub mod error;
pub mod chunker;
pub mod key;
pub mod query;
pub mod assembler;
pub mod derived;
