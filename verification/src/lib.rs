//! Rules that inspect the concrete syntax tree of a Java source file and report
//! violations, with the analysis that finds local variables which could be
//! declared `final`.
//!
//! A [`cst::CstNode`] is the tree that the rules read; [`linter::check_tree`]
//! walks it once, asks every registered rule at every node, and gives what they
//! find in the order of the source. Every function states what it returns over
//! a model of its arguments, and is proved to return that.

pub mod config;
pub mod cst;
pub mod diagnostics;
pub mod dump;
pub mod linter;
pub mod names;
pub mod pattern;
pub mod rule;
pub mod rules;
pub mod source_index;
pub mod text;

pub use rule::{CheckContext, FromConfig, Rule};
