//! A verified chain-synchronization engine: the protocol logic that tracks
//! what remote peers announce, resolves the fork point with the best of
//! them, queues the missing hashes and headers through expiring work pools,
//! and reassembles fetched headers and bodies into blocks to be connected,
//! in order, to the local chain.
//!
//! The transport and the chain store act outside this crate: callers pass
//! in what those collaborators reported and carry the returned requests
//! out, so every decision here is a function over plain values.

pub mod cycle;
pub mod downloader;
pub mod pool;
pub mod submit;
pub mod types;
