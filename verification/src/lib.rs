//! Assembler toolkit for the UE14500 one-bit processor: the 12-bit word
//! model, the assembly-text parser and the packed binary codec.
pub mod data;
pub mod formats;
pub mod listing;
pub mod text;
