//! A multi-language source-code indexer: it turns parsed source files into a
//! module-level code graph and answers structural queries over it.
//!
//! The library works on plain values. A project is a list of source files
//! held in memory; a parse tree is an arena of nodes in document order; the
//! graph keeps its files and modules in maps with ascending keys. Every
//! function states what it returns over mathematical models of these
//! values, and the statements are proved.
//!
//! - `text`, `ordered`, `str_map`: strings as character sequences, sorted
//!   vectors, and the map that the graph is made of.
//! - `path_utils`, `traverser`: path arithmetic, languages by extension,
//!   exclusion rules.
//! - `syntax`, `parser`, `languages`: parse trees, the tree-sitter parser
//!   behind them, and the adapters that extract functions, imports,
//!   exports and classes for each language.
//! - `graph`, `summary`, `deps`: the records of the graph, its aggregates
//!   and its dependency edges.
//! - `scanner`, `differ`: building a graph from sources and updating it in
//!   place.
//! - `impact`, `query`, `slicer`: read-only projections of a graph.
//! - `invariants`, `agreement`: what holds of every graph, and the laws
//!   that relate scans, updates, merges and graphs.

pub mod agreement;
pub mod deps;
pub mod differ;
pub mod graph;
pub mod impact;
pub mod invariants;
pub mod languages;
pub mod ordered;
pub mod parser;
pub mod path_utils;
pub mod query;
pub mod scanner;
pub mod slicer;
pub mod str_map;
pub mod summary;
pub mod syntax;
pub mod text;
pub mod traverser;
