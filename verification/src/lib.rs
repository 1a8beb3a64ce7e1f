//! Reorders the top-level declarations of a source file into a fixed
//! canonical category order, preserving each declaration's original text.
//!
//! The crate works on plain values: the source text as bytes, and a
//! [`model::ParsedFile`] describing the declarations by kind and by the
//! line/column spans a structural parser reported for them.  A front end
//! that produces such a description, and the file I/O around it, live
//! outside this library.

pub mod assemble;
pub mod classify;
pub mod input;
pub mod laws;
pub mod lines;
pub mod model;
pub mod resolve;
