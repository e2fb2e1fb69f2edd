//! Runtime half of a compiled-template rendering engine: an append-only UTF-8
//! text buffer, markup escaping, and composable output filters that rewrite
//! the slice of the buffer they have just produced.

pub mod buffer;
pub mod error;
pub mod escape;
pub mod filter;
pub mod fold;
pub mod json;
pub mod render;
pub mod trimming;
pub mod truncation;
