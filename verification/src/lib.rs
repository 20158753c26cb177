//! Incremental chat archival engine: history-fill pagination with client-side
//! boundary enforcement and checkpointing, a bounded media pipeline, a peer
//! resolution cache with request coalescing, a durable store model, a keyword
//! watcher, and a chunked Map-Reduce analysis pipeline.
//!
//! The engines here depend only on the port traits; concrete adapters
//! (platform client, SQL store, LLM endpoint, task tracker, terminal UI)
//! plug in at the composition root.

pub mod analysis;
pub mod config;
pub mod csvfmt;
pub mod domain;
pub mod fsrepo;
pub mod gateway;
pub mod media;
pub mod ports;
pub mod resolver;
pub mod state;
pub mod store;
pub mod sync;
pub mod textutil;
pub mod timefmt;
pub mod ui;
pub mod watcher;
