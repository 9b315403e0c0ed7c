//! A write-buffering and read-through layer for an append-only,
//! position-addressed store.
//!
//! The heart of the crate is [`batch::MMRBatch`]: it stages contiguous runs of
//! elements appended during one construction pass, serves reads that see both
//! staged and durable data, and flushes the staged runs to a backing store on
//! commit. The backing store is reached only through the two capability
//! traits in [`store`]; [`mem_store::MemStore`] implements both in memory,
//! with failure injection for exercising the error paths. The laws relating
//! staging, reading and committing are proved in [`laws`].

pub mod batch;
pub mod laws;
pub mod mem_store;
pub mod store;
