//! From a document to a table: the rows of an array of arrays, or the
//! union of the keys of an array of records and one row for each record.

use crate::decimal::{decimal, decimal_string};
use crate::entries::{entry_keys, lookup};
use crate::json::{compact_text, json_text, object_entries, object_get, object_keys, value_view, views, Json};
use crate::laws::lemma_header_union_no_duplicates;
use crate::table::{Table, TableView};
use vstd::prelude::*;
use vstd::string::*;

verus! {

/// Why a document is no table.
#[derive(Debug, Clone, Copy, PartialEq, Eq)]
pub enum ShapeError {
    /// The document is not an array.
    NotAnArray,
    /// The first element is an array, and the element at `index` is not.
    RowNotArray { index: usize },
    /// The first element is neither an array nor an object.
    NotRowsOrRecords,
}

impl ShapeError {
    /// The sentence that tells a user what is wrong with the document.
    pub open spec fn text(self) -> Seq<char> {
        match self {
            ShapeError::NotAnArray => "JSON must be an array"@,
            ShapeError::RowNotArray { index } => "Row "@ + decimal(index as nat) + " is not an array"@,
            ShapeError::NotRowsOrRecords => "JSON array must contain arrays or objects"@,
        }
    }

    /// The sentence that tells a user what is wrong with the document.
    pub fn message(&self) -> (s: String)
        ensures
            s@ == self.text(),
    {
        match self {
            ShapeError::NotAnArray => "JSON must be an array".to_owned(),
            ShapeError::RowNotArray { index } => {
                let mut s = "Row ".to_owned();
                let digits = decimal_string(*index);
                s.append(digits.as_str());
                s.append(" is not an array");
                s
            },
            ShapeError::NotRowsOrRecords => "JSON array must contain arrays or objects".to_owned(),
        }
    }
}

/// The text of a cell: a string as it is, nothing for `null`, and the
/// canonical text of any other value.
pub open spec fn cell_text(v: Json) -> Seq<char> {
    match v {
        Json::String(s) => s,
        Json::Null => Seq::empty(),
        Json::Bool(b) => if b {
            "true"@
        } else {
            "false"@
        },
        Json::Number(text) => text,
        _ => json_text(v),
    }
}

/// The texts of the cells of one row.
pub open spec fn cells_text(cells: Seq<Json>) -> Seq<Seq<char>> {
    cells.map_values(|c: Json| cell_text(c))
}

/// `known` and behind it, in their order, the keys that it did not hold
/// yet, each once.
pub open spec fn add_keys(known: Seq<Seq<char>>, keys: Seq<Seq<char>>) -> Seq<Seq<char>>
    decreases keys.len(),
{
    if keys.len() == 0 {
        known
    } else {
        let before = add_keys(known, keys.drop_last());
        if before.contains(keys.last()) {
            before
        } else {
            before.push(keys.last())
        }
    }
}

/// The keys of all the records among the items, each once, in the order in
/// which they are first met.
pub open spec fn header_union(items: Seq<Json>) -> Seq<Seq<char>>
    decreases items.len(),
{
    if items.len() == 0 {
        Seq::empty()
    } else {
        let before = header_union(items.drop_last());
        match items.last() {
            Json::Object(entries) => add_keys(before, entry_keys(entries)),
            _ => before,
        }
    }
}

/// The row of a record under the given headers: for each header the text
/// of the value stored under it, and nothing where the record lacks it.
pub open spec fn record_row(entries: Seq<(Seq<char>, Json)>, headers: Seq<Seq<char>>) -> Seq<Seq<char>> {
    headers.map_values(
        |key: Seq<char>|
            match lookup(entries, key) {
                Some(v) => cell_text(v),
                None => Seq::empty(),
            },
    )
}

/// One row for each record among the items, in order. Items that are no
/// records give no row.
pub open spec fn record_rows(items: Seq<Json>, headers: Seq<Seq<char>>) -> Seq<Seq<Seq<char>>>
    decreases items.len(),
{
    if items.len() == 0 {
        Seq::empty()
    } else {
        let before = record_rows(items.drop_last(), headers);
        match items.last() {
            Json::Object(entries) => before.push(record_row(entries, headers)),
            _ => before,
        }
    }
}

/// The position of the first item that is not an array, if there is one.
pub open spec fn first_non_array(items: Seq<Json>) -> Option<int>
    decreases items.len(),
{
    if items.len() == 0 {
        None
    } else {
        match first_non_array(items.drop_last()) {
            Some(i) => Some(i),
            None => if items.last() is Array {
                None
            } else {
                Some(items.len() - 1)
            },
        }
    }
}

/// One row for each item, all of them arrays.
pub open spec fn array_rows(items: Seq<Json>) -> Seq<Seq<Seq<char>>> {
    items.map_values(|item: Json| cells_text(item->Array_0))
}

/// The table that a document stands for.
///
/// The document must be an array. An empty array is the empty table. Else
/// the first element decides: where it is an array, every element must be
/// one and gives a row; where it is a record, the header row is the union of
/// the keys and each record gives a row.
pub open spec fn table_of(doc: Json) -> Result<TableView, ShapeError> {
    match doc {
        Json::Array(items) => if items.len() == 0 {
            Ok(TableView { headers: None, rows: Seq::empty() })
        } else {
            match items[0] {
                Json::Array(_) => match first_non_array(items) {
                    Some(i) => Err(ShapeError::RowNotArray { index: i as usize }),
                    None => Ok(TableView { headers: None, rows: array_rows(items) }),
                },
                Json::Object(_) => Ok(
                    TableView { headers: Some(header_union(items)), rows: record_rows(items, header_union(items)) },
                ),
                _ => Err(ShapeError::NotRowsOrRecords),
            }
        },
        _ => Err(ShapeError::NotAnArray),
    }
}

/// The content of an outcome of `document_to_table`.
pub open spec fn outcome_view(r: Result<Table, ShapeError>) -> Result<TableView, ShapeError> {
    match r {
        Ok(table) => Ok(table@),
        Err(e) => Err(e),
    }
}

/// The text of a cell.
pub fn cell_string(v: &serde_json::Value) -> (s: String)
    ensures
        s@ == cell_text(value_view(*v)),
{
    match v.as_str() {
        Some(text) => text.to_owned(),
        None => if v.is_null() {
            String::new()
        } else {
            compact_text(v)
        },
    }
}

/// The texts of the cells of one row.
pub fn row_strings(cells: &Vec<serde_json::Value>) -> (row: Vec<String>)
    ensures
        row.deep_view() == cells_text(views(cells@)),
{
    let mut row: Vec<String> = Vec::new();
    let n = cells.len();
    let mut i: usize = 0;
    while i < n
        invariant
            n == cells.len(),
            i <= n,
            row.len() == i,
            forall|j: int| 0 <= j < i ==> (#[trigger] row[j])@ == cell_text(value_view(cells[j])),
        decreases n - i,
    {
        row.push(cell_string(&cells[i]));
        i += 1;
    }
    assert(row.deep_view() =~= cells_text(views(cells@)));
    row
}

/// Whether `key` is among `keys`.
fn holds_key(keys: &Vec<String>, key: &String) -> (found: bool)
    ensures
        found == keys.deep_view().contains(key@),
{
    let n = keys.len();
    let mut i: usize = 0;
    while i < n
        invariant
            n == keys.len(),
            i <= n,
            forall|j: int| 0 <= j < i ==> (#[trigger] keys[j])@ != key@,
        decreases n - i,
    {
        if keys[i] == *key {
            assert(keys.deep_view()[i as int] == key@);
            return true;
        }
        i += 1;
    }
    false
}

/// Adds to `known` the keys that it does not hold yet.
fn extend_headers(known: &mut Vec<String>, keys: &Vec<String>)
    ensures
        final(known).deep_view() == add_keys(old(known).deep_view(), keys.deep_view()),
{
    let n = keys.len();
    let mut i: usize = 0;
    assert(keys.deep_view().take(0).len() == 0);
    while i < n
        invariant
            n == keys.len(),
            i <= n,
            known.deep_view() == add_keys(old(known).deep_view(), keys.deep_view().take(i as int)),
        decreases n - i,
    {
        proof {
            let next = keys.deep_view().take(i + 1);
            assert(next.drop_last() =~= keys.deep_view().take(i as int));
            assert(next.last() == keys[i as int]@);
        }
        if !holds_key(known, &keys[i]) {
            let ghost before = known.deep_view();
            known.push(keys[i].clone());
            assert(known.deep_view() =~= before.push(keys[i as int]@));
        }
        i += 1;
    }
    assert(keys.deep_view().take(n as int) =~= keys.deep_view());
}

/// The union of the keys of the records among the items, in the order in
/// which they are first met. No key stands in it twice.
pub fn union_headers(items: &Vec<serde_json::Value>) -> (headers: Vec<String>)
    ensures
        headers.deep_view() == header_union(views(items@)),
        headers.deep_view().no_duplicates(),
{
    let mut headers: Vec<String> = Vec::new();
    let n = items.len();
    let mut i: usize = 0;
    assert(views(items@).take(0).len() == 0);
    assert(headers.deep_view() =~= Seq::<Seq<char>>::empty());
    while i < n
        invariant
            n == items.len(),
            i <= n,
            headers.deep_view() == header_union(views(items@).take(i as int)),
        decreases n - i,
    {
        proof {
            let next = views(items@).take(i + 1);
            assert(next.drop_last() =~= views(items@).take(i as int));
            assert(next.last() == value_view(items[i as int]));
        }
        match items[i].as_object() {
            Some(m) => {
                let keys = object_keys(m);
                extend_headers(&mut headers, &keys);
            },
            None => {},
        }
        i += 1;
    }
    assert(views(items@).take(n as int) =~= views(items@));
    proof {
        lemma_header_union_no_duplicates(views(items@));
    }
    headers
}

/// The row of a record under the given headers.
pub fn record_strings(m: &serde_json::Map<String, serde_json::Value>, headers: &Vec<String>) -> (row: Vec<String>)
    ensures
        row.deep_view() == record_row(object_entries(*m), headers.deep_view()),
{
    let mut row: Vec<String> = Vec::new();
    let n = headers.len();
    let mut i: usize = 0;
    while i < n
        invariant
            n == headers.len(),
            i <= n,
            row.len() == i,
            forall|j: int| 0 <= j < i ==> (#[trigger] row[j])@ == record_row(object_entries(*m), headers.deep_view())[j],
        decreases n - i,
    {
        let cell = match object_get(m, &headers[i]) {
            Some(v) => cell_string(v),
            None => String::new(),
        };
        row.push(cell);
        i += 1;
    }
    assert(row.deep_view() =~= record_row(object_entries(*m), headers.deep_view()));
    row
}

/// The rows of an array of arrays, or the position of the first element
/// that is no array.
fn rows_of_arrays(items: &Vec<serde_json::Value>) -> (r: Result<Vec<Vec<String>>, usize>)
    ensures
        match r {
            Ok(rows) => first_non_array(views(items@)) is None && rows.deep_view() == array_rows(views(items@)),
            Err(index) => first_non_array(views(items@)) == Some(index as int),
        },
{
    let mut rows: Vec<Vec<String>> = Vec::new();
    let n = items.len();
    let mut i: usize = 0;
    assert(views(items@).take(0).len() == 0);
    while i < n
        invariant
            n == items.len(),
            i <= n,
            rows.len() == i,
            first_non_array(views(items@).take(i as int)) is None,
            forall|j: int| 0 <= j < i ==> (#[trigger] rows[j]).deep_view() == array_rows(views(items@))[j],
        decreases n - i,
    {
        proof {
            let next = views(items@).take(i + 1);
            assert(next.drop_last() =~= views(items@).take(i as int));
            assert(next.last() == value_view(items[i as int]));
        }
        match items[i].as_array() {
            Some(cells) => {
                rows.push(row_strings(cells));
            },
            None => {
                proof {
                    lemma_first_non_array_prefix(views(items@), i + 1);
                }
                return Err(i);
            },
        }
        i += 1;
    }
    assert(views(items@).take(n as int) =~= views(items@));
    assert(rows.deep_view() =~= array_rows(views(items@)));
    Ok(rows)
}

/// A first non-array found in a prefix is the first one of the whole.
proof fn lemma_first_non_array_prefix(items: Seq<Json>, n: int)
    requires
        0 <= n <= items.len(),
        first_non_array(items.take(n)) is Some,
    ensures
        first_non_array(items) == first_non_array(items.take(n)),
    decreases items.len() - n,
{
    if n < items.len() {
        let next = items.take(n + 1);
        assert(next.drop_last() =~= items.take(n));
        lemma_first_non_array_prefix(items, n + 1);
    } else {
        assert(items.take(n) =~= items);
    }
}

/// One row for each record among the items.
fn rows_of_records(items: &Vec<serde_json::Value>, headers: &Vec<String>) -> (rows: Vec<Vec<String>>)
    ensures
        rows.deep_view() == record_rows(views(items@), headers.deep_view()),
{
    let mut rows: Vec<Vec<String>> = Vec::new();
    let n = items.len();
    let mut i: usize = 0;
    assert(views(items@).take(0).len() == 0);
    assert(rows.deep_view() =~= Seq::<Seq<Seq<char>>>::empty());
    while i < n
        invariant
            n == items.len(),
            i <= n,
            rows.deep_view() == record_rows(views(items@).take(i as int), headers.deep_view()),
        decreases n - i,
    {
        proof {
            let next = views(items@).take(i + 1);
            assert(next.drop_last() =~= views(items@).take(i as int));
            assert(next.last() == value_view(items[i as int]));
        }
        match items[i].as_object() {
            Some(m) => {
                let ghost before = rows.deep_view();
                let row = record_strings(m, headers);
                rows.push(row);
                assert(rows.deep_view() =~= before.push(row.deep_view()));
            },
            None => {},
        }
        i += 1;
    }
    assert(views(items@).take(n as int) =~= views(items@));
    rows
}

/// Turns a document into a table, or says why it is none.
pub fn document_to_table(doc: &serde_json::Value) -> (r: Result<Table, ShapeError>)
    ensures
        outcome_view(r) == table_of(value_view(*doc)),
{
    let items = match doc.as_array() {
        Some(items) => items,
        None => {
            return Err(ShapeError::NotAnArray);
        },
    };
    if items.len() == 0 {
        let table = Table { headers: None, rows: Vec::new() };
        assert(table@.rows =~= Seq::<Seq<Seq<char>>>::empty());
        return Ok(table);
    }
    assert(views(items@)[0] == value_view(items[0]));
    if items[0].as_array().is_some() {
        match rows_of_arrays(items) {
            Ok(rows) => Ok(Table { headers: None, rows }),
            Err(index) => Err(ShapeError::RowNotArray { index }),
        }
    } else if items[0].as_object().is_some() {
        let headers = union_headers(items);
        let rows = rows_of_records(items, &headers);
        Ok(Table { headers: Some(headers), rows })
    } else {
        Err(ShapeError::NotRowsOrRecords)
    }
}

} // verus!
