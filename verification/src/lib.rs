//! A multi-language static analyzer that reports common defects of generated code
//! (masked errors, bloat, missing docs, weak tests, dead imports, hardcoded secrets, ...).

use vstd::prelude::*;

pub mod text;
pub mod pieces;
pub mod unicode;
pub mod source;
pub mod syntax;
pub mod paths;
pub mod parser;
pub mod ts;
pub mod finding;
pub mod config;
pub mod rule;
pub mod nav;
pub mod ast;
pub mod rules;
pub mod analyzer;
pub mod reporter;
pub mod diff;
pub mod llm;
pub mod server;
pub mod options;

