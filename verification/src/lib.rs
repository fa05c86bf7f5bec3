//! Verified core of a durable, hash-chained semantic memory log.
pub mod text;
pub mod kinds;
pub mod positions;
pub mod hashing;
pub mod model;
pub mod registry;
pub mod chain;
pub mod binfmt;
pub mod index;
pub mod query;
pub mod traversal;
pub mod window;
pub mod naming;
pub mod markdown;
pub mod markdown_laws;
pub mod llm;
pub mod migration;
pub mod agents;
pub mod context;
pub mod branch;
pub mod signing;
pub mod chains;
pub mod writer;
pub mod registry_sync;
