//! An embeddable expression engine: infix text is tokenized, converted to a postfix
//! program and evaluated against a small dynamically typed value model.
//!
//! Floating-point values are carried as IEEE-754 binary64 bit patterns. The library
//! decides every coercion and every integer, boolean and string result itself; the
//! arithmetic on binary64 values is requested from the host (see `eval::HostCall`).
pub mod catalog;
pub mod error;
pub mod eval;
pub mod expression;
pub mod lexer;
pub mod token;
pub mod value;
