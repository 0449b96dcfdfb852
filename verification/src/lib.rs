//! Verified core of a local clipboard-history store.
//!
//! The library models the ingestion-to-storage pipeline of a clipboard
//! manager: content classification and size gating, content-hash
//! deduplication, an item table kept in lockstep with a search-shadow
//! table, listing/favorites/search queries, retention cleanup, and the
//! selection of orphaned image files.  Outside calls (hashing, image
//! scaling, unique-id generation) stand behind small trusted wrappers;
//! everything around them is verified.

pub mod content;
pub mod epoch;
pub mod hashing;
pub mod ingest;
pub mod laws;
pub mod models;
pub mod orphan;
pub mod paste;
pub mod queries;
pub mod retention;
pub mod search;
pub mod store;
pub mod text;
pub mod thumbnail;
