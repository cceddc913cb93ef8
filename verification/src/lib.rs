//! A local media indexing engine: shallow scanning, folder snapshots, a
//! catalog of file records, thumbnail cache keys and the synchronization
//! rules that tie them together.

pub mod catalog;
pub mod commands;
pub mod database;
pub mod indexer;
pub mod models;
pub mod natural;
pub mod sync;
pub mod sync_laws;
pub mod sync_model;
pub mod text;
pub mod textmap;
pub mod thumbnail;
pub mod watcher;
