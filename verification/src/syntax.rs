//! Grammar-driven command-line parsers.
//!
//! A grammar parser (tree-sitter) turns the line into a syntax tree;
//! [`tree`] walks that tree, handed over as its nodes in pre-order,
//! into a [`crate::ast::CommandAst`]. Lines the grammar rejects fall
//! back to [`crate::parse::parse_simple`].

pub mod tree;
pub mod bash;
pub mod fish;
pub mod nu;
