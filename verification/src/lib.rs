//! polo: a bi-temporal, causal fact ledger.
//!
//! The library holds the ledger's logic: hybrid logical clocks, the typed
//! fact model, schema validation, the in-memory store with branches, merges
//! and diffs, garbage collection and retention, and the PQL query language
//! (lexer, parser and evaluator).
pub mod clock;
pub mod text;
pub mod fact;
pub mod error;
pub mod keyed;
pub mod schema;
pub mod sort;
pub mod namespace;
pub mod branch;
pub mod tx;
pub mod db;
pub mod gc;
pub mod merge;
pub mod stats;
pub mod bulk;
pub mod store;
pub mod pql;
pub mod laws;
pub mod api;
pub mod requests;
pub mod input;
