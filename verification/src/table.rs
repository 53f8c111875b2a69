//! Tables: ordered rows of text fields with an optional header row, and
//! their reading from and writing to delimited text.

use crate::delimited::{csv_encode, csv_headers, csv_records, read_headers, read_records, write_rows};
use vstd::prelude::*;

verus! {

/// Ordered rows of text fields. Where `headers` is there, it is the row
/// that names the columns; it is not among `rows`.
#[derive(Debug, Clone, PartialEq, Eq)]
pub struct Table {
    pub headers: Option<Vec<String>>,
    pub rows: Vec<Vec<String>>,
}

/// The content of a table.
pub struct TableView {
    pub headers: Option<Seq<Seq<char>>>,
    pub rows: Seq<Seq<Seq<char>>>,
}

impl View for Table {
    type V = TableView;

    open spec fn view(&self) -> TableView {
        TableView { headers: self.headers.deep_view(), rows: self.rows.deep_view() }
    }
}

impl TableView {
    /// The rows as they are written: the header row, if any, and then the
    /// data rows.
    pub open spec fn lines(self) -> Seq<Seq<Seq<char>>> {
        match self.headers {
            Some(h) => seq![h] + self.rows,
            None => self.rows,
        }
    }

    /// Whether every data row has as many fields as the header row.
    pub open spec fn rectangular(self) -> bool {
        forall|i: int| 0 <= i < self.rows.len() ==> (#[trigger] self.rows[i]).len() == self.headers->0.len()
    }
}

/// The byte by which the `csv` crate knows a delimiter character: the low
/// eight bits of its code point.
pub open spec fn delimiter_byte(delimiter: char) -> u8 {
    (delimiter as u32 % 256) as u8
}

/// The byte for a delimiter character.
pub fn delimiter_to_byte(delimiter: char) -> (b: u8)
    ensures
        b == delimiter_byte(delimiter),
{
    (delimiter as u32 % 256) as u8
}

/// The table that a byte string holds, or `None` where the text cannot be
/// decoded.
pub open spec fn decoded_table(input: Seq<u8>, delimiter: char, has_headers: bool, trim: bool) -> Option<TableView> {
    let d = delimiter_byte(delimiter);
    match csv_records(input, d, has_headers, trim) {
        None => None,
        Some(rows) => if has_headers {
            match csv_headers(input, d, trim) {
                None => None,
                Some(h) => Some(TableView { headers: Some(h), rows }),
            }
        } else {
            Some(TableView { headers: None, rows })
        },
    }
}

/// Reads a table from delimited text. With `has_headers` the first row is
/// set aside as the header row. With `trim` the whitespace around each
/// field is dropped.
pub fn parse_table(input: &[u8], delimiter: char, has_headers: bool, trim: bool) -> (r: Result<Table, csv::Error>)
    ensures
        match r {
            Ok(table) => decoded_table(input@, delimiter, has_headers, trim) == Some(table@),
            Err(_) => decoded_table(input@, delimiter, has_headers, trim) is None,
        },
{
    let d = delimiter_to_byte(delimiter);
    let headers = if has_headers {
        match read_headers(input, d, trim) {
            Ok(h) => Some(h),
            Err(e) => {
                return Err(e);
            },
        }
    } else {
        None
    };
    match read_records(input, d, has_headers, trim) {
        Ok(rows) => Ok(Table { headers, rows }),
        Err(e) => Err(e),
    }
}

/// The bytes of a table as delimited text, or `None` where the text cannot
/// be encoded. A table without any row is no bytes at all.
pub open spec fn encoded_table(table: TableView, delimiter: char, quote_all: bool) -> Option<Seq<u8>> {
    if table.lines().len() == 0 {
        Some(Seq::empty())
    } else {
        csv_encode(table.lines(), delimiter_byte(delimiter), quote_all)
    }
}

/// Writes a table as delimited text: the header row, if any, then each data
/// row. With `quote_all` every field is quoted, else only the fields that
/// hold the delimiter, a quote or a line break.
pub fn write_table(table: &Table, delimiter: char, quote_all: bool) -> (r: Result<Vec<u8>, csv::Error>)
    ensures
        match r {
            Ok(bytes) => encoded_table(table@, delimiter, quote_all) == Some(bytes@),
            Err(_) => encoded_table(table@, delimiter, quote_all) is None,
        },
{
    let mut lines: Vec<&Vec<String>> = Vec::new();
    match &table.headers {
        Some(h) => {
            lines.push(h);
        },
        None => {},
    }
    let n = table.rows.len();
    let mut i: usize = 0;
    while i < n
        invariant
            n == table.rows.len(),
            i <= n,
            lines.deep_view() == table@.lines().take(lines.len() as int),
            lines.len() == i + (if table.headers is Some { 1int } else { 0int }),
        decreases n - i,
    {
        lines.push(&table.rows[i]);
        i += 1;
    }
    assert(lines.deep_view() == table@.lines()) by {
        assert(table@.lines().take(lines.len() as int) =~= table@.lines());
    }
    if lines.len() == 0 {
        return Ok(Vec::new());
    }
    write_rows(&lines, delimiter_to_byte(delimiter), quote_all)
}

} // verus!
