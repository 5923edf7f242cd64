//! Verified frontend passes of the Aziky compiler.

pub mod ast;
pub mod copy;
pub mod diagnostic;
pub mod display;
pub mod ir;
pub mod optimizer;
pub mod parser;
pub mod semantics;
pub mod text;
pub mod token;
