//! Watch-state tracking for a personal video library.
//!
//! Each tracked video gets a sidecar directory holding a metadata record
//! (duration, current position, watched flag) and a thumbnail.  This crate
//! holds the metadata lifecycle rules: the sidecar record codec, time
//! formatting, sidecar path layout, the policy deciding when derived
//! artifacts must be (re)generated, and the per-episode state mutations.
//! All file and process access is left to the embedding application, which
//! feeds results back in as plain values.

pub mod digits;
pub mod errors;
pub mod metadata;
pub mod paths;
pub mod episode;
