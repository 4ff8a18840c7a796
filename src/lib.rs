//! A catalog-driven graph document engine: typed node instances and
//! labelled edges are resolved against a schema of node types and written
//! as a TOML document, and free text typed for a parameter is read into a
//! typed value under the same schema.

pub mod literal;
pub mod text;
pub mod toml_bridge;
pub mod edge;
pub mod node_builder;
pub mod parse;
pub mod graph;
pub mod emit;
pub mod laws;
pub mod order_free;
pub mod app;
pub mod tui;
