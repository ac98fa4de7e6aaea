//! A one-way indexer core that mirrors a ledger's transaction history into a
//! relational analytics store.
//!
//! The library holds the verified heart of the pipeline: the decomposition of
//! raw transactions into row families, the per-(processor, version) status
//! bookkeeping that drives resume and retry, the chunking of batched writes,
//! and the tailer loop that discovers and dispatches unprocessed versions.
//! The relational store is modelled in memory with the backend's insert and
//! upsert disciplines; callers wire the real network and database edges
//! around these functions.

pub mod counters;
pub mod database;
pub mod default_processor;
pub mod errors;
pub mod metadata;
pub mod models;
pub mod store;
pub mod table;
pub mod tailer;
pub mod transaction_processor;
pub mod util;
