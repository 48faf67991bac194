//! Rebuilds the nested shape of a table's fields from flat, path-keyed field
//! definitions, resolves declared kinds to a canonical type model and maps
//! that model to TypeScript type expressions.
pub mod config;
pub mod field_tree;
pub mod generator;
pub mod meta;
pub mod ordered;
pub mod parser;
pub mod table_info;
pub mod text;
pub mod tree_ts;
pub mod ts;
