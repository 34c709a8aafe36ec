//! Core of an archive/compression dispatcher: parsing a file name's trailing
//! extensions into an ordered chain of recognized codec formats, and resolving
//! a set of input paths plus an optional output path into a validated
//! `Compress` or `Decompress` command, or a precise error.

pub mod error;
pub mod extension;
pub mod cli;
pub mod file;
