//! Execution-core library of a distributed analytical SQL engine.
//!
//! The crate covers the pipeline runtime (ports, processor state machines),
//! the distributed exchange layer (shuffle partitioning and merge wiring) and
//! the vectorized hash-join probe engine, together with the peripheral data
//! types that travel through the pipeline: error codes, copy statements,
//! stream columns, sort schemas and partition descriptors.

pub mod batch;
pub mod copy_stmt;
pub mod error;
pub mod exchange;
pub mod hash_table;
pub mod hive;
pub mod internal_column;
pub mod join;
pub mod memory_estimate;
pub mod meta;
pub mod partition;
pub mod pipeline;
pub mod port;
pub mod processor;
pub mod schema;
pub mod segment;
pub mod sort;
pub mod stream_column;
pub mod strmap;
pub mod text;
pub mod virtual_column;
pub mod wire;
