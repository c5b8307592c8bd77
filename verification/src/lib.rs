//! Indexing and semantic retrieval over a named corpus of text documents.
//!
//! The crate holds the rules of a data source: how documents and chunks are
//! fingerprinted, where their raw text is archived, which points and filters
//! the vector index is asked for, and how a search hit grows into its
//! neighbourhood. Network and disk work is left to the caller, who hands the
//! results back as plain values.

pub mod blob;
pub mod data_source;
pub mod document;
pub mod error;
pub mod expand;
pub mod filter;
pub mod fingerprint;
pub mod index;
pub mod order;
pub mod planner;
pub mod retrieve;
pub mod search;
pub mod settings;
pub mod tags;
pub mod text;
pub mod upsert;
