//! The two conversions from bytes to bytes, and the command that chooses
//! between them.

use crate::json::{json_decode, json_pretty, read_value, write_pretty};
use crate::table::{decoded_table, encoded_table, parse_table, write_table};
use crate::to_document::{document_of, table_to_document};
use crate::to_table::{document_to_table, table_of, ShapeError};
use vstd::prelude::*;

verus! {

/// What to convert, and how.
#[derive(Debug, Clone, Copy, PartialEq, Eq)]
pub enum Command {
    /// Delimited text to JSON.
    CsvToJson { array_format: bool, delimiter: char, has_headers: bool, trim: bool },
    /// JSON to delimited text.
    JsonToCsv { delimiter: char, quote_all: bool },
}

/// Why a conversion failed.
#[derive(Debug)]
pub enum ConvertError {
    /// Delimited text could not be decoded or encoded.
    Csv(csv::Error),
    /// JSON text could not be decoded or encoded.
    Json(serde_json::Error),
    /// The document is no table.
    Shape(ShapeError),
}

/// The kind of a failure.
pub enum Failure {
    Csv,
    Json,
    Shape(ShapeError),
}

impl View for ConvertError {
    type V = Failure;

    open spec fn view(&self) -> Failure {
        match self {
            ConvertError::Csv(_) => Failure::Csv,
            ConvertError::Json(_) => Failure::Json,
            ConvertError::Shape(e) => Failure::Shape(*e),
        }
    }
}

/// The content of the outcome of a conversion.
pub open spec fn outcome(r: Result<Vec<u8>, ConvertError>) -> Result<Seq<u8>, Failure> {
    match r {
        Ok(bytes) => Ok(bytes@),
        Err(e) => Err(e@),
    }
}

/// The JSON text for a delimited text: the table is decoded, turned into a
/// document and printed with indentation.
pub open spec fn csv_to_json_outcome(
    input: Seq<u8>,
    array_format: bool,
    delimiter: char,
    has_headers: bool,
    trim: bool,
) -> Result<Seq<u8>, Failure> {
    match decoded_table(input, delimiter, has_headers, trim) {
        None => Err(Failure::Csv),
        Some(table) => match json_pretty(document_of(table, array_format)) {
            None => Err(Failure::Json),
            Some(bytes) => Ok(bytes),
        },
    }
}

/// The delimited text for a JSON text: the document is decoded, turned into
/// a table and encoded.
pub open spec fn json_to_csv_outcome(input: Seq<u8>, delimiter: char, quote_all: bool) -> Result<
    Seq<u8>,
    Failure,
> {
    match json_decode(input) {
        None => Err(Failure::Json),
        Some(doc) => match table_of(doc) {
            Err(e) => Err(Failure::Shape(e)),
            Ok(table) => match encoded_table(table, delimiter, quote_all) {
                None => Err(Failure::Csv),
                Some(bytes) => Ok(bytes),
            },
        },
    }
}

/// The outcome of a command on an input.
pub open spec fn run_outcome(command: Command, input: Seq<u8>) -> Result<Seq<u8>, Failure> {
    match command {
        Command::CsvToJson { array_format, delimiter, has_headers, trim } => csv_to_json_outcome(
            input,
            array_format,
            delimiter,
            has_headers,
            trim,
        ),
        Command::JsonToCsv { delimiter, quote_all } => json_to_csv_outcome(input, delimiter, quote_all),
    }
}

/// Converts delimited text to indented JSON text: an array of arrays where
/// `array_format` is set, else an array of records.
pub fn csv_to_json(input: &[u8], array_format: bool, delimiter: char, has_headers: bool, trim: bool) -> (r: Result<
    Vec<u8>,
    ConvertError,
>)
    ensures
        outcome(r) == csv_to_json_outcome(input@, array_format, delimiter, has_headers, trim),
{
    let table = match parse_table(input, delimiter, has_headers, trim) {
        Ok(table) => table,
        Err(e) => {
            return Err(ConvertError::Csv(e));
        },
    };
    let doc = table_to_document(&table, array_format);
    match write_pretty(&doc) {
        Ok(bytes) => Ok(bytes),
        Err(e) => Err(ConvertError::Json(e)),
    }
}

/// Converts JSON text, an array of arrays or an array of records, to
/// delimited text.
pub fn json_to_csv(input: &[u8], delimiter: char, quote_all: bool) -> (r: Result<Vec<u8>, ConvertError>)
    ensures
        outcome(r) == json_to_csv_outcome(input@, delimiter, quote_all),
{
    let doc = match read_value(input) {
        Ok(doc) => doc,
        Err(e) => {
            return Err(ConvertError::Json(e));
        },
    };
    let table = match document_to_table(&doc) {
        Ok(table) => table,
        Err(e) => {
            return Err(ConvertError::Shape(e));
        },
    };
    match write_table(&table, delimiter, quote_all) {
        Ok(bytes) => Ok(bytes),
        Err(e) => Err(ConvertError::Csv(e)),
    }
}

/// Runs a command on the bytes of its input and gives the bytes of its
/// output.
pub fn run(command: &Command, input: &[u8]) -> (r: Result<Vec<u8>, ConvertError>)
    ensures
        outcome(r) == run_outcome(*command, input@),
{
    match command {
        Command::CsvToJson { array_format, delimiter, has_headers, trim } => csv_to_json(
            input,
            *array_format,
            *delimiter,
            *has_headers,
            *trim,
        ),
        Command::JsonToCsv { delimiter, quote_all } => json_to_csv(input, *delimiter, *quote_all),
    }
}

impl Command {
    /// The line that reports success.
    pub open spec fn confirmation_text(self) -> Seq<char> {
        match self {
            Command::CsvToJson { .. } => "CSV successfully converted to JSON"@,
            Command::JsonToCsv { .. } => "JSON successfully converted to CSV"@,
        }
    }

    /// The line that reports success.
    pub fn confirmation(&self) -> (s: &'static str)
        ensures
            s@ == self.confirmation_text(),
    {
        match self {
            Command::CsvToJson { .. } => "CSV successfully converted to JSON",
            Command::JsonToCsv { .. } => "JSON successfully converted to CSV",
        }
    }
}

impl ConvertError {
    /// The message of the failure, as a user reads it.
    pub fn message(&self) -> (s: String)
        ensures
            self matches ConvertError::Shape(e) ==> s@ == e.text(),
    {
        match self {
            ConvertError::Csv(e) => e.to_string(),
            ConvertError::Json(e) => e.to_string(),
            ConvertError::Shape(e) => e.message(),
        }
    }
}

} // verus!
