//! Conversion between delimited text tables and JSON documents.
//!
//! A table is a sequence of rows of text fields, with or without a header
//! row. A document is a JSON array, either of arrays (one for each row) or
//! of records (one for each data row, keyed by the header row or by the
//! position of each field).
//!
//! - [`table`] reads tables from delimited text and writes them.
//! - [`to_document`] turns a table into a document.
//! - [`to_table`] turns a document into a table.
//! - [`convert`] joins these into the two conversions from bytes to bytes.
//! - [`laws`] proves what holds of the two mappings together.
//! - [`json`] and [`delimited`] hold what is taken on trust of the crates
//!   `serde_json` and `csv`.

pub mod convert;
pub mod decimal;
pub mod delimited;
pub mod entries;
pub mod json;
pub mod laws;
pub mod table;
pub mod to_document;
pub mod to_table;
