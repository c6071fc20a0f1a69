//! Storage layout, catalog resolution, push decisions and protocol parsing for a
//! remote helper that keeps a repository's refs as encrypted bundles in an
//! object-storage bucket.
pub mod store;
pub mod refs;
pub mod catalog;
pub mod words;
pub mod push;
pub mod config;
pub mod remote;
pub mod protocol;
