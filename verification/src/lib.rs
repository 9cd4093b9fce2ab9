//! An embedded, file-backed time-series store, without the files.
//!
//! The crate holds the storage engine's decisions: which block an append goes
//! to, when a new block is allocated, what the key index records, how a lookup
//! resolves, and how names on disk are derived. Reading and writing the files is
//! left to the host, which hands file contents in and takes them back.

pub mod db;
pub mod fs;
pub mod key_index;
pub mod model;
pub mod series_block;
pub mod series_parent;
pub mod series_store;
