//! The commit core of a multi-version, multi-writer key-value store:
//! buffered write transactions over a snapshot, optimistic conflict
//! detection, and a timestamp oracle that totally orders commits.
pub mod entry;
pub mod error;
pub mod store;
pub mod oracle;
pub mod pending;
pub mod write;
pub mod laws;
