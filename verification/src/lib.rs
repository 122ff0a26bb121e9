//! Diagnostics, workspace bookkeeping and editor completions for the Firm DSL.
//!
//! The library works on a plain model of a parsed `.firm` file: a syntax tree
//! whose nodes carry their kind, error flags, byte range and positions, next to
//! the source text and the file path.

pub mod syntax_tree;
pub mod diagnostics;

pub mod parsed;
pub mod syntax;
pub mod workspace;
pub mod workspace_diagnostics;
pub mod check;
pub mod text;
pub mod completion;
