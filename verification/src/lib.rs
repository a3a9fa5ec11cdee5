//! `mouse` is a blockchain framework: records with their identities, a bounded
//! cache for them, a two-stream key/value layer and a relational index.

pub mod cache;
pub mod data_types;
pub mod kvs;
pub mod rdb;
