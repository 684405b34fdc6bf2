//! A small directory-listing library: option parsing, entry ordering,
//! filtering and line rendering, all specified and verified.  Reading
//! directories and printing is left to the binary around it.

pub mod entry;
pub mod laws;
pub mod lex;
pub mod listing;
pub mod options;
pub mod order;
pub mod render;
pub mod timefmt;
