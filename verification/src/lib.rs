//! Loading tabular files into one columnar model.
//!
//! The crate classifies a file by its name, turns the header of a binary
//! table into per-column entries, expands vector columns into scalar ones,
//! and assembles the columns into a [`table::Table`] that can be listed,
//! cut to its first or last rows, narrowed to chosen columns and summarised.
//! Opening files and decoding their bytes is left to the caller: every
//! function here goes from plain values to plain values.

pub mod column;
pub mod detect;
pub mod error;
pub mod expand;
pub mod header;
pub mod reader;
pub mod summary;
pub mod table;
pub mod text;
