//! Indexing core for inscriptions and dunes: the varint codec of the token
//! protocol, the fixed-width record codec of the index tables, and the
//! per-transaction inscription location tracker.
pub mod bytes;
pub mod dunes;
pub mod entry;
pub mod index;
pub mod templates;
pub mod updater;
pub mod varint;
