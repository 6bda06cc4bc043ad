//! Telemetry aggregation for a CPU / process monitor client.
//!
//! The library holds the in-memory model that incoming samples are folded
//! into (`msg_data`, with per-thread records in `threads`), the parser for
//! plugin text metrics (`plugin`), demo data (`test_data`), snapshot export
//! and loading (`snapshot`), the decisions of the control verbs (`ctrl`),
//! the connection supervisor (`conn`), UI events (`ui`) and path resolution
//! for snapshot files (`utils`).

pub mod msg;
pub mod threads;
pub mod text;
pub mod plugin;
pub mod msg_data;
pub mod test_data;
pub mod ctrl;
pub mod utils;
pub mod ui;
pub mod snapshot;
pub mod conn;
