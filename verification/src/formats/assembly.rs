//! The assembly text format: one instruction or one comment to a line.
pub mod grammar;
pub mod parser;
