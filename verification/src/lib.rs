//! A small template engine: a template is parsed into a tree of tagged
//! nodes, and an interpreter renders that tree against a JSON-like document.

pub mod climb;
pub mod error;
pub mod grammar;
pub mod interpreter;
pub mod kernel;
pub mod laws;
pub mod parser;
pub mod path;
pub mod semantics;
pub mod syntax;
pub mod text;
pub mod value;
