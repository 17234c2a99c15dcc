//! A node of an append-only-log network: it accepts signed bamboo entries,
//! keeps a registry of logs and a store of entries, tells clients the
//! arguments of their next entry, and projects messages into current-state
//! rows.

pub mod bamboo;
pub mod bytes;
pub mod registry;
pub mod store;
pub mod publish;
pub mod materializer;
