//! Repository synchronization and verified-fetch pipeline.
//!
//! The crate models and verifies the core of a package manager's refresh
//! path: parsing signed repository metadata, resolving which index files to
//! fetch, the per-file download state machine with resume and checksum
//! retry, a bounded-concurrency batch scheduler, and streaming
//! decompression of the fetched artifacts.

pub mod bytes;
pub mod checksum;
pub mod config;
pub mod dbus;
pub mod decompress;
pub mod dpkg;
pub mod fetch;
pub mod inrelease;
pub mod print;
pub mod resolver;
pub mod scheduler;
pub mod search;
pub mod searcher;
pub mod table;
pub mod topics;
pub mod verify;
