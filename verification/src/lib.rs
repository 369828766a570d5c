//! A parser and linter for POSIX `make` build scripts.
//!
//! The crate turns raw makefile text into a flat, line-addressed syntax
//! tree (`ast`), then evaluates an ordered registry of pure lint policies
//! over that tree (`warnings`). Every emitted node carries the 1-based
//! physical line on which its construct begins, so diagnostics point at
//! the right place even across backslash-newline continuations.

pub mod ast;
pub mod inspect;
pub mod laws;
pub mod scan;
pub mod text;
pub mod warnings;

pub use ast::parse_posix;
