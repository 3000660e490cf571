//! Per-repository semantic code index: language-aware symbol and reference
//! extraction from concrete syntax trees, an in-memory symbol store with an
//! incremental, hash-driven indexing pipeline, subword tokenization for
//! search, and the pure decision logic of the file watcher and its debouncer.

pub mod budget;
pub mod config;
pub mod cst;
pub mod debouncer;
pub mod filters;
pub mod formatter;
pub mod gitignore;
pub mod hasher;
pub mod indexer;
pub mod laws;
pub mod markdown;
pub mod paths;
pub mod python;
pub mod ruby;
pub mod rust_lang;
pub mod sorting;
pub mod store;
pub mod style;
pub mod strutil;
pub mod symbols;
pub mod tokenizer;
pub mod tracker;
pub mod typescript;
