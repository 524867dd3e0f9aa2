//! Strips comments and blank lines from C-family source text and merges the
//! cleaned files of a source tree into one document.
//!
//! The library reads no file and prints nothing: it is handed texts and
//! directory listings, and hands back what to write and what to show.
//!
//! - [`comments`], [`blank_lines`] and [`cleaner`] clean one text; [`modes`]
//!   holds what the proof that cleaning is idempotent needs.
//! - [`exclusion`], [`discovery`] and [`order`] find the source files of a
//!   tree; [`tree`] states what a walk finds in a given tree.
//! - [`processor`] and [`aggregator`] merge the cleaned files.
//! - [`config`], [`naming`], [`source`], [`tempfile`], [`report`] and
//!   [`errors`] hold the options of a run, the names it derives, what it
//!   shows, and how it fails.
//! - [`text`] holds what the others share about characters and strings.

pub mod aggregator;
pub mod blank_lines;
pub mod cleaner;
pub mod comments;
pub mod config;
pub mod discovery;
pub mod errors;
pub mod exclusion;
pub mod modes;
pub mod naming;
pub mod order;
pub mod processor;
pub mod report;
pub mod source;
pub mod tempfile;
pub mod text;
pub mod tree;
