//! A verified file organizer.
//!
//! The library sorts the files of one directory into subdirectories named
//! after each file's category, which is inferred from its extension through
//! a fixed lookup table. It holds the logic of the tool: classification,
//! path normalization and validation, listing order, and the planning of
//! each move. The filesystem and the interactive prompt stay outside.

pub mod classify;
pub mod listing;
pub mod organizer;
pub mod paths;
pub mod text;
