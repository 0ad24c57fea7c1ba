//! Cached results and how they are found, checked and kept.
pub mod direct;
pub mod journal;
pub mod key;
pub mod manifest;
pub mod output_lock;
pub mod reasons;
pub mod request;
pub mod restore;
pub mod snapshot;
pub mod stats;
pub mod store;
pub mod trim;
pub mod validity;
pub mod witness;
