//! A verified word-adjacency ("Markov chain") chat engine.
//!
//! The library ingests message text into an append-only multiset of
//! word-pair observations, and generates bounded-length pseudo-random
//! text by repeatedly sampling successor words from that store.

pub mod chain;
pub mod dispatch;
pub mod ingest;
pub mod store;
pub mod text;
