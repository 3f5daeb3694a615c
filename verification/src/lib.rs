//! Hoonoki: a semantics-first IDL for distributed systems. This crate holds
//! the syntax tree, the diagnostics, the reading of specifications and the
//! loading of bundles, the normalizer, the validator, the lint pass, the
//! analysis views and the Rust scaffold renderer.
pub mod text;
pub mod schema;
pub mod value;
pub mod diagnostics;
pub mod name_map;
pub mod ast;
pub mod contracts;
pub mod resolve;
pub mod ir;
pub mod normalize;
pub mod bundle;
pub mod validate;
pub mod lint;
pub mod parse;
pub mod loader;
pub mod graph;
pub mod inspect;
pub mod rust;
pub mod report;
pub mod agree;
pub mod laws;
