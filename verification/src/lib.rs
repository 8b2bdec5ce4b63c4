//! Whitespace rules of a Java style checker, with their contracts proved by Verus.

pub mod indent_level;
pub mod text;
pub mod strings;
pub mod diagnostics;
pub mod java_parser;
pub mod cst;
pub mod config;
pub mod rules;
pub mod suppression;
