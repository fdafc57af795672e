//! Core of a small creature-battle game backend: an in-memory store of text
//! embeddings partitioned by category, ranked similarity search over it, the
//! byte framing used to persist a partition, and the catalog matching that
//! turns free-text ability requests into concrete abilities.
pub mod codec;
pub mod embedding;
pub mod models;
pub mod ranking;
pub mod text;
