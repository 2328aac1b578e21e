//! Column selection and per-record transforms for delimited tabular data.
//!
//! A selector expression names columns by position, by name or by range. It
//! is resolved once against a header row into a list of column indices, and
//! a transform is then applied to each record of a stream, one at a time:
//! fill replaces the selected fields of records that a pattern picks, trim
//! removes boundary whitespace from every field.
//!
//! * [`record`]: the record type, `csv::ByteRecord`, and its model.
//! * [`pattern`]: compiled patterns, which wrap `regex::bytes::Regex`.
//! * [`parse`]: the text form of selector expressions.
//! * [`selector`]: selector expressions and their resolution.
//! * [`selection`]: resolved selections.
//! * [`fill`] and [`trim`]: the two transforms.
//! * [`driver`]: the order of events in a stream.
//! * [`error`]: column references and errors.
//!
//! The library reads and writes nothing. A caller that owns a source and a
//! sink hands each record to a [`driver::StreamDriver`] and does what it
//! answers; a caller that holds a whole stream in memory can use
//! [`fill::run`] or [`trim::run`].

pub mod driver;
pub mod error;
pub mod fill;
pub mod parse;
pub mod pattern;
pub mod record;
pub mod selection;
pub mod selector;
pub mod trim;
