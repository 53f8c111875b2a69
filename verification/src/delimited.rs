//! The delimited-text side of the converter: the contracts under which the
//! library uses the `csv` crate.
//!
//! Nothing in this module is proved. The uninterpreted functions name what
//! a reader or writer of the `csv` crate computes from its input, and the
//! contracts of the functions below equate their results with those names.
//! Readers and writers are made flexible, so rows of unequal length pass.

use vstd::prelude::*;

verus! {

/// `csv::Error`, which the library hands on without looking into it.
#[verifier::external_type_specification]
#[verifier::external_body]
pub struct ExCsvError(csv::Error);

/// The first row that `csv::Reader::headers` gives for a byte string, or
/// `None` where it reports an error. With `trim`, whitespace around each
/// field is removed.
pub uninterp spec fn csv_headers(input: Seq<u8>, delimiter: u8, trim: bool) -> Option<Seq<Seq<char>>>;

/// The rows that `csv::Reader::records` yields for a byte string, or `None`
/// where one of them is an error. With `has_headers` the first row of the
/// input is not among them.
pub uninterp spec fn csv_records(input: Seq<u8>, delimiter: u8, has_headers: bool, trim: bool) -> Option<
    Seq<Seq<Seq<char>>>,
>;

/// The bytes that a `csv::Writer` has written after `write_record` for each
/// of the rows in turn, or `None` where it reports an error. With
/// `quote_all` every field is quoted, else only those that need it.
pub uninterp spec fn csv_encode(rows: Seq<Seq<Seq<char>>>, delimiter: u8, quote_all: bool) -> Option<Seq<u8>>;

/// `csv::Reader::headers` on a reader over the bytes.
#[verifier::external_body]
pub(crate) fn read_headers(input: &[u8], delimiter: u8, trim: bool) -> (r: Result<Vec<String>, csv::Error>)
    ensures
        match r {
            Ok(row) => csv_headers(input@, delimiter, trim) == Some(row.deep_view()),
            Err(_) => csv_headers(input@, delimiter, trim) is None,
        },
{
    let mut builder = csv::ReaderBuilder::new();
    builder.delimiter(delimiter).flexible(true);
    builder.trim(if trim { csv::Trim::All } else { csv::Trim::None });
    let mut reader = builder.from_reader(input);
    Ok(reader.headers()?.iter().map(String::from).collect())
}

/// `csv::Reader::records` on a reader over the bytes, each record as a row
/// of strings.
#[verifier::external_body]
pub(crate) fn read_records(input: &[u8], delimiter: u8, has_headers: bool, trim: bool) -> (r: Result<
    Vec<Vec<String>>,
    csv::Error,
>)
    ensures
        match r {
            Ok(rows) => csv_records(input@, delimiter, has_headers, trim) == Some(rows.deep_view()),
            Err(_) => csv_records(input@, delimiter, has_headers, trim) is None,
        },
{
    let mut builder = csv::ReaderBuilder::new();
    builder.delimiter(delimiter).has_headers(has_headers).flexible(true);
    builder.trim(if trim { csv::Trim::All } else { csv::Trim::None });
    let mut reader = builder.from_reader(input);
    let mut rows: Vec<Vec<String>> = Vec::new();
    for record in reader.records() {
        rows.push(record?.iter().map(String::from).collect());
    }
    Ok(rows)
}

/// `csv::Writer::write_record` for each row in turn, on a writer into a
/// byte vector.
#[verifier::external_body]
pub(crate) fn write_rows(rows: &Vec<&Vec<String>>, delimiter: u8, quote_all: bool) -> (r: Result<
    Vec<u8>,
    csv::Error,
>)
    ensures
        match r {
            Ok(bytes) => csv_encode(rows.deep_view(), delimiter, quote_all) == Some(bytes@),
            Err(_) => csv_encode(rows.deep_view(), delimiter, quote_all) is None,
        },
{
    let mut builder = csv::WriterBuilder::new();
    builder.delimiter(delimiter).flexible(true);
    builder.quote_style(if quote_all { csv::QuoteStyle::Always } else { csv::QuoteStyle::Necessary });
    let mut writer = builder.from_writer(Vec::new());
    for row in rows.iter() {
        writer.write_record(row.iter())?;
    }
    writer.into_inner().map_err(|e| csv::Error::from(e.into_error()))
}

} // verus!
