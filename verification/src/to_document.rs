//! From a table to a document: an array of rows, or an array of records
//! keyed by the header row or by the position of each field.

use crate::decimal::{decimal, decimal_string, lemma_decimal_injective};
use crate::entries::{lemma_with_new_entry, with_entry};
use crate::json::{array_value, object_entries, object_value, string_value, value_view, views, Json};
use crate::table::{Table, TableView};
use vstd::prelude::*;
use vstd::string::*;

verus! {

/// The key of the field at position `i` of a row without headers: `field`
/// and the position in decimal.
pub open spec fn field_key(i: nat) -> Seq<char> {
    seq!['f', 'i', 'e', 'l', 'd'] + decimal(i)
}

/// Different positions have different keys.
pub proof fn lemma_field_key_injective(a: nat, b: nat)
    requires
        field_key(a) == field_key(b),
    ensures
        a == b,
{
    let prefix = seq!['f', 'i', 'e', 'l', 'd'];
    assert(decimal(a) =~= field_key(a).subrange(prefix.len() as int, field_key(a).len() as int));
    assert(decimal(b) =~= field_key(b).subrange(prefix.len() as int, field_key(b).len() as int));
    lemma_decimal_injective(a, b);
}

/// A row as an array of strings.
pub open spec fn text_row(row: Seq<Seq<char>>) -> Json {
    Json::Array(row.map_values(|field: Seq<char>| Json::String(field)))
}

/// The entries of a record after the first `n` columns: each field in turn
/// is stored under the header of its column.
pub open spec fn keyed_prefix(headers: Seq<Seq<char>>, row: Seq<Seq<char>>, n: nat) -> Seq<(Seq<char>, Json)>
    decreases n,
{
    if n == 0 {
        Seq::empty()
    } else {
        with_entry(keyed_prefix(headers, row, (n - 1) as nat), headers[n - 1], Json::String(row[n - 1]))
    }
}

/// The number of columns that have both a header and a field.
pub open spec fn keyed_columns(headers: Seq<Seq<char>>, row: Seq<Seq<char>>) -> nat {
    if headers.len() <= row.len() {
        headers.len()
    } else {
        row.len()
    }
}

/// The entries of the record of a row under a header row. A header without
/// a field gives no entry, and a field without a header is dropped. Where a
/// header occurs twice, the later field takes the place of the earlier one.
pub open spec fn keyed_entries(headers: Seq<Seq<char>>, row: Seq<Seq<char>>) -> Seq<(Seq<char>, Json)> {
    keyed_prefix(headers, row, keyed_columns(headers, row))
}

/// The entries of the record of a row without headers: every field, under
/// the key of its position.
pub open spec fn positional_entries(row: Seq<Seq<char>>) -> Seq<(Seq<char>, Json)> {
    Seq::new(row.len(), |i: int| (field_key(i as nat), Json::String(row[i])))
}

/// The record of a row.
pub open spec fn record_of(headers: Option<Seq<Seq<char>>>, row: Seq<Seq<char>>) -> Json {
    match headers {
        Some(h) => Json::Object(keyed_entries(h, row)),
        None => Json::Object(positional_entries(row)),
    }
}

/// The document of a table. As arrays: the header row, if any, and the data
/// rows, each an array of strings. As records: one record for each data
/// row.
pub open spec fn document_of(table: TableView, array_format: bool) -> Json {
    if array_format {
        Json::Array(table.lines().map_values(|row: Seq<Seq<char>>| text_row(row)))
    } else {
        Json::Array(table.rows.map_values(|row: Seq<Seq<char>>| record_of(table.headers, row)))
    }
}

/// The key of the field at position `i` of a row without headers.
pub fn positional_key(i: usize) -> (key: String)
    ensures
        key@ == field_key(i as nat),
{
    proof {
        reveal_strlit("field");
    }
    let mut key = "field".to_owned();
    let digits = decimal_string(i);
    key.append(digits.as_str());
    assert(key@ =~= field_key(i as nat));
    key
}

/// A row as an array of strings.
pub fn text_row_value(row: &Vec<String>) -> (v: serde_json::Value)
    ensures
        value_view(v) == text_row(row.deep_view()),
{
    let mut cells: Vec<serde_json::Value> = Vec::new();
    let n = row.len();
    let mut i: usize = 0;
    while i < n
        invariant
            n == row.len(),
            i <= n,
            cells.len() == i,
            forall|j: int| 0 <= j < i ==> value_view(#[trigger] cells[j]) == Json::String(row[j]@),
        decreases n - i,
    {
        cells.push(string_value(row[i].clone()));
        i += 1;
    }
    assert(views(cells@) =~= row.deep_view().map_values(|field: Seq<char>| Json::String(field)));
    array_value(cells)
}

/// The record of a row under a header row.
pub fn keyed_record(headers: &Vec<String>, row: &Vec<String>) -> (v: serde_json::Value)
    ensures
        value_view(v) == Json::Object(keyed_entries(headers.deep_view(), row.deep_view())),
{
    let mut entries = serde_json::Map::new();
    let n = if headers.len() <= row.len() {
        headers.len()
    } else {
        row.len()
    };
    let mut i: usize = 0;
    while i < n
        invariant
            n == keyed_columns(headers.deep_view(), row.deep_view()),
            i <= n,
            object_entries(entries) == keyed_prefix(headers.deep_view(), row.deep_view(), i as nat),
        decreases n - i,
    {
        entries.insert(headers[i].clone(), string_value(row[i].clone()));
        i += 1;
    }
    object_value(entries)
}

/// The record of a row without headers.
pub fn positional_record(row: &Vec<String>) -> (v: serde_json::Value)
    ensures
        value_view(v) == Json::Object(positional_entries(row.deep_view())),
{
    let mut entries = serde_json::Map::new();
    let n = row.len();
    let mut i: usize = 0;
    assert(object_entries(entries) =~= positional_entries(row.deep_view()).take(0));
    while i < n
        invariant
            n == row.len(),
            i <= n,
            object_entries(entries) == positional_entries(row.deep_view()).take(i as int),
        decreases n - i,
    {
        let key = positional_key(i);
        proof {
            let before = positional_entries(row.deep_view()).take(i as int);
            assert forall|j: int| 0 <= j < before.len() implies (#[trigger] before[j]).0 != key@ by {
                if before[j].0 == key@ {
                    lemma_field_key_injective(j as nat, i as nat);
                }
            }
            lemma_with_new_entry(before, key@, Json::String(row[i as int]@));
            assert(before.push((key@, Json::String(row[i as int]@))) =~= positional_entries(
                row.deep_view(),
            ).take(i + 1));
        }
        entries.insert(key, string_value(row[i].clone()));
        i += 1;
    }
    assert(positional_entries(row.deep_view()).take(n as int) =~= positional_entries(row.deep_view()));
    object_value(entries)
}

/// Turns a table into a document: an array of arrays where `array_format`
/// is set, else an array of records.
pub fn table_to_document(table: &Table, array_format: bool) -> (doc: serde_json::Value)
    ensures
        value_view(doc) == document_of(table@, array_format),
{
    let mut items: Vec<serde_json::Value> = Vec::new();
    if array_format {
        match &table.headers {
            Some(h) => {
                items.push(text_row_value(h));
            },
            None => {},
        }
    }
    let ghost lead = items.len();
    let n = table.rows.len();
    let mut i: usize = 0;
    while i < n
        invariant
            n == table.rows.len(),
            i <= n,
            items.len() == lead + i,
            lead == (if array_format && table.headers is Some { 1int } else { 0int }),
            lead == 1 ==> value_view(items[0]) == text_row(table@.headers->0),
            forall|j: int|
                0 <= j < i ==> value_view(#[trigger] items[lead + j]) == (if array_format {
                    text_row(table@.rows[j])
                } else {
                    record_of(table@.headers, table@.rows[j])
                }),
        decreases n - i,
    {
        let row = &table.rows[i];
        let item = if array_format {
            text_row_value(row)
        } else {
            match &table.headers {
                Some(h) => keyed_record(h, row),
                None => positional_record(row),
            }
        };
        items.push(item);
        i += 1;
    }
    proof {
        if array_format {
            let expected = table@.lines().map_values(|row: Seq<Seq<char>>| text_row(row));
            assert(views(items@).len() == expected.len());
            assert forall|k: int| 0 <= k < expected.len() implies views(items@)[k] == expected[k] by {
                if k >= lead {
                    assert(items[lead + (k - lead)] == items[k]);
                }
            }
            assert(views(items@) =~= expected);
        } else {
            let expected = table@.rows.map_values(|row: Seq<Seq<char>>| record_of(table@.headers, row));
            assert forall|k: int| 0 <= k < expected.len() implies views(items@)[k] == expected[k] by {
                assert(items[lead + k] == items[k]);
            }
            assert(views(items@) =~= expected);
        }
    }
    array_value(items)
}

} // verus!
