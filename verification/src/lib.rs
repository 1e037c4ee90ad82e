//! A small dynamically typed scripting language: its lexer, its parser and
//! its evaluator, with the contracts of each proved.
//!
//! Source text becomes tokens (`tokenizer`), tokens become a syntax tree
//! (`parser`), and the tree is evaluated against a stack of scopes
//! (`encoding_impl`, `evaluator`) with the help of a fixed set of
//! primitives (`primitives`). `semantics` says what evaluation yields.
//! Floating-point numbers are carried as bit patterns; their arithmetic
//! is the host's (`floats`).

pub mod encoding;
pub mod encoding_debug;
pub mod encoding_display;
pub mod encoding_impl;
pub mod evaluator;
pub mod floats;
pub mod parser;
pub mod primitives;
pub mod semantics;
pub mod text;
pub mod tokenizer;
