//! Verified core of the Dogwood policy language tooling: rendering policies
//! back to source text, schema lookups, validation of provider invocations,
//! and the map of which temporal leaves each decision reads.

pub mod api;
pub mod ast;
pub mod cedar;
pub mod leaf_map;
pub mod provider;
pub mod render;
pub mod schema_info;
pub mod temporal_ast;
pub mod text;
