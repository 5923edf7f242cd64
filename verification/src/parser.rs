//! From tokens to a syntax tree.

pub mod cursor;
pub mod exprs;
pub mod items;
pub mod laws;
pub mod patterns;
pub mod stmts;
pub mod types;
pub mod written;
pub mod written_exprs;
pub mod written_items;
pub mod written_stmts;
pub mod written_types;
