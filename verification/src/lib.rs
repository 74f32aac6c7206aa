//! A transactional, versioned table: schema evolution, an append-only action
//! log, batch ingestion, optimistic commits and checkpoint compaction.
//!
//! - [`schema`]: columns and schemas; declaring a schema, merging an incoming one.
//! - [`rows`]: typed values and row batches; what it means for a row to satisfy a
//!   schema.
//! - [`encoding`]: the byte format of a data file, written and read back.
//! - [`log`]: the versioned action log, and the table state that replaying it gives.
//! - [`record`]: the byte format of a log record.
//! - [`ingest`]: from row batches to a target schema, data files and a plan.
//! - [`commit`]: the commit state machine, and its driver for a log in memory.
//! - [`checkpoint`]: when a checkpoint is due, and the writing of it.
//! - [`table`]: opening a table, and creating one where there is none.
//! - [`scan`]: reading a data file under the schema the table has now.
//! - [`customer`]: the declaration of the customer amount table.
//!
//! The library does no I/O. Every durable effect is a value (an action set to
//! append, bytes to persist) that the caller carries out; what happened outside
//! comes back as a value too.

pub mod checkpoint;
pub mod commit;
pub mod customer;
pub mod encoding;
pub mod error;
pub mod ingest;
pub mod log;
pub mod record;
pub mod rows;
pub mod scan;
pub mod schema;
pub mod table;
