//! Converts XML configuration files into Lua table modules.
//!
//! An XML document is reduced to its structural events (element opens with
//! their attributes, element closes); every element that carries at least one
//! attribute contributes one indented attribute record to the output table,
//! and the whole table is bound under a module name derived from the input
//! file's base name.

pub mod token;
pub mod text;
pub mod parse;
pub mod convert;
