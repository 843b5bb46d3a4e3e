//! Decoder for the binary crossword puzzle format that carries the
//! `ACROSS&DOWN` marker.
//!
//! A file is an arbitrary prelude, a 52-byte header, the solution grid, the
//! player grid and a table of NUL-terminated strings. [`parse`] turns the
//! bytes of one file into a [`Puzzle`] or says with a [`FormatError`] why
//! they are none. The stages it runs are public, each with its own
//! contract:
//!
//! - [`header`]: finding the header behind the prelude, reading its fields;
//! - [`grid`]: taking the two grids, numbering their cells;
//! - [`text`]: splitting and decoding the string table;
//! - [`clues`]: finding where answers start, numbering and reading them;
//! - [`puzzle`]: the record and the decoder as a whole;
//! - [`laws`]: what holds of every decoded puzzle;
//! - [`std_specs`]: the two standard-library functions taken on trust.

pub mod clues;
pub mod error;
pub mod grid;
pub mod header;
pub mod laws;
pub mod puzzle;
pub mod std_specs;
pub mod text;

pub use clues::{reconstruct_clues, Clue, ClueOrientation};
pub use error::{FormatError, Stage};
pub use grid::{cell_count, extract_grids, i_xy, xy_i};
pub use header::{decode_header, locate_header, RawHeader};
pub use puzzle::{assemble, cells_to_chars, parse, Puzzle};
pub use text::{decode_text, parse_string_table};
