//! What holds of the two mappings between tables and documents: how the
//! union of headers is ordered, what becomes of missing fields, and which
//! tables and documents come back unchanged from a round trip.

use crate::convert::{json_to_csv_outcome, Failure};
use crate::entries::{entry_keys, key_index, lemma_key_index, lemma_key_index_distinct, lemma_with_new_entry, lookup};
use crate::json::{json_decode, Json};
use crate::table::{encoded_table, TableView};
use crate::to_document::{document_of, keyed_columns, keyed_entries, keyed_prefix, record_of, text_row};
use crate::to_table::{
    add_keys,
    array_rows,
    cell_text,
    cells_text,
    first_non_array,
    header_union,
    record_row,
    record_rows,
    table_of,
    ShapeError,
};
use vstd::prelude::*;

verus! {

/// Adding keys keeps what was known in front, holds the known and the added
/// keys and no others, and brings in no key twice.
pub proof fn lemma_add_keys(known: Seq<Seq<char>>, keys: Seq<Seq<char>>)
    ensures
        known.is_prefix_of(add_keys(known, keys)),
        forall|key: Seq<char>| add_keys(known, keys).contains(key) <==> known.contains(key) || keys.contains(key),
        known.no_duplicates() ==> add_keys(known, keys).no_duplicates(),
    decreases keys.len(),
{
    let after = add_keys(known, keys);
    if keys.len() == 0 {
        assert(known =~= after.subrange(0, known.len() as int));
    } else {
        let before = add_keys(known, keys.drop_last());
        lemma_add_keys(known, keys.drop_last());
        assert(known =~= after.subrange(0, known.len() as int)) by {
            assert(known =~= before.subrange(0, known.len() as int));
        }
        assert forall|key: Seq<char>| after.contains(key) <==> known.contains(key) || keys.contains(key) by {
            if after.contains(key) {
                let i = choose|i: int| 0 <= i < after.len() && after[i] == key;
                if i < before.len() {
                    assert(before[i] == key);
                    assert(before.contains(key));
                    if keys.drop_last().contains(key) {
                        let j = choose|j: int| 0 <= j < keys.drop_last().len() && keys.drop_last()[j] == key;
                        assert(keys[j] == key);
                    }
                } else {
                    assert(keys[keys.len() - 1] == key);
                }
            }
            if known.contains(key) {
                assert(before.contains(key));
                let i = choose|i: int| 0 <= i < before.len() && before[i] == key;
                assert(after[i] == key);
            }
            if keys.contains(key) {
                let j = choose|j: int| 0 <= j < keys.len() && keys[j] == key;
                if j < keys.len() - 1 {
                    assert(keys.drop_last()[j] == key);
                    assert(keys.drop_last().contains(key));
                    assert(before.contains(key));
                    let i = choose|i: int| 0 <= i < before.len() && before[i] == key;
                    assert(after[i] == key);
                } else if before.contains(key) {
                    let i = choose|i: int| 0 <= i < before.len() && before[i] == key;
                    assert(after[i] == key);
                } else {
                    assert(after[before.len() as int] == key);
                }
            }
        }
        if known.no_duplicates() && !before.contains(keys.last()) {
            assert forall|i: int, j: int| 0 <= i < after.len() && 0 <= j < after.len() && i != j implies after[i]
                != after[j] by {
                if i < before.len() && j < before.len() {
                    assert(before[i] != before[j]);
                } else if i < before.len() {
                    assert(before[i] == after[i]);
                } else {
                    assert(before[j] == after[j]);
                }
            }
        }
    }
}

/// Keys that are all known add nothing.
pub proof fn lemma_add_known_keys(known: Seq<Seq<char>>, keys: Seq<Seq<char>>)
    requires
        forall|i: int| 0 <= i < keys.len() ==> known.contains(#[trigger] keys[i]),
    ensures
        add_keys(known, keys) == known,
    decreases keys.len(),
{
    if keys.len() > 0 {
        assert forall|i: int| 0 <= i < keys.drop_last().len() implies known.contains(
            #[trigger] keys.drop_last()[i],
        ) by {
            assert(keys.drop_last()[i] == keys[i]);
        }
        lemma_add_known_keys(known, keys.drop_last());
        assert(known.contains(keys[keys.len() - 1]));
    }
}

/// Distinct keys of which none is known are added as they stand.
pub proof fn lemma_add_fresh_keys(known: Seq<Seq<char>>, keys: Seq<Seq<char>>)
    requires
        keys.no_duplicates(),
        forall|i: int| 0 <= i < keys.len() ==> !known.contains(#[trigger] keys[i]),
    ensures
        add_keys(known, keys) == known + keys,
    decreases keys.len(),
{
    if keys.len() == 0 {
        assert(known + keys =~= known);
    } else {
        let front = keys.drop_last();
        assert forall|i: int| 0 <= i < front.len() implies !known.contains(#[trigger] front[i]) by {
            assert(front[i] == keys[i]);
        }
        lemma_add_fresh_keys(known, front);
        let before = known + front;
        if before.contains(keys.last()) {
            let i = choose|i: int| 0 <= i < before.len() && before[i] == keys.last();
            if i < known.len() {
                assert(known[i] == keys[keys.len() - 1]);
                assert(known.contains(keys[keys.len() - 1]));
            } else {
                assert(keys[i - known.len()] == keys[keys.len() - 1]);
            }
        }
        assert(before.push(keys.last()) =~= known + keys);
    }
}

/// The union of headers holds no key twice.
pub proof fn lemma_header_union_no_duplicates(items: Seq<Json>)
    ensures
        header_union(items).no_duplicates(),
    decreases items.len(),
{
    if items.len() > 0 {
        lemma_header_union_no_duplicates(items.drop_last());
        match items.last() {
            Json::Object(entries) => {
                lemma_add_keys(header_union(items.drop_last()), entry_keys(entries));
            },
            _ => {},
        }
    }
}

/// The union of headers grows at its end only: the union of the first `n`
/// items stands in front of the union of all of them. So a key that is
/// first met in an earlier record comes before one that is first met in a
/// later record.
pub proof fn lemma_header_union_grows(items: Seq<Json>, n: int)
    requires
        0 <= n <= items.len(),
    ensures
        header_union(items.take(n)).is_prefix_of(header_union(items)),
    decreases items.len(),
{
    let whole = header_union(items);
    if n == items.len() {
        assert(items.take(n) =~= items);
        assert(whole =~= whole.subrange(0, whole.len() as int));
    } else {
        let front = items.drop_last();
        assert(front.take(n) =~= items.take(n));
        lemma_header_union_grows(front, n);
        let part = header_union(items.take(n));
        match items.last() {
            Json::Object(entries) => {
                lemma_add_keys(header_union(front), entry_keys(entries));
                assert(part =~= whole.subrange(0, part.len() as int)) by {
                    assert(part =~= header_union(front).subrange(0, part.len() as int));
                    assert(header_union(front) =~= whole.subrange(0, header_union(front).len() as int));
                }
            },
            _ => {},
        }
    }
}

/// The union of headers begins with the keys of the first item, where that
/// is a record.
pub proof fn lemma_header_union_starts_with_first(items: Seq<Json>, first: Seq<(Seq<char>, Json)>)
    requires
        items.len() > 0,
        items[0] == Json::Object(first),
        entry_keys(first).no_duplicates(),
    ensures
        entry_keys(first).is_prefix_of(header_union(items)),
{
    let one = items.take(1);
    assert(one.drop_last() =~= Seq::<Json>::empty());
    assert(one.last() == items[0]);
    assert(header_union(one.drop_last()) =~= Seq::<Seq<char>>::empty());
    assert forall|i: int| 0 <= i < entry_keys(first).len() implies !Seq::<Seq<char>>::empty().contains(
        #[trigger] entry_keys(first)[i],
    ) by {}
    lemma_add_fresh_keys(Seq::empty(), entry_keys(first));
    assert(Seq::<Seq<char>>::empty() + entry_keys(first) =~= entry_keys(first));
    assert(header_union(one) == entry_keys(first));
    lemma_header_union_grows(items, 1);
}

/// The union of headers holds every key of every record, and no other key.
pub proof fn lemma_header_union_members(items: Seq<Json>, key: Seq<char>)
    ensures
        header_union(items).contains(key) <==> exists|i: int|
            0 <= i < items.len() && (#[trigger] items[i]) is Object && entry_keys(items[i]->Object_0).contains(key),
    decreases items.len(),
{
    if items.len() == 0 {
        assert(!header_union(items).contains(key));
    } else {
        let front = items.drop_last();
        lemma_header_union_members(front, key);
        let met = |s: Seq<Json>|
            exists|i: int| 0 <= i < s.len() && (#[trigger] s[i]) is Object && entry_keys(s[i]->Object_0).contains(key);
        if met(front) {
            let i = choose|i: int|
                0 <= i < front.len() && (#[trigger] front[i]) is Object && entry_keys(front[i]->Object_0).contains(
                    key,
                );
            assert(items[i] == front[i]);
            assert(met(items));
        }
        match items.last() {
            Json::Object(entries) => {
                lemma_add_keys(header_union(front), entry_keys(entries));
                if entry_keys(entries).contains(key) {
                    assert(items[items.len() - 1] is Object);
                    assert(met(items));
                }
            },
            _ => {},
        }
        if met(items) {
            let i = choose|i: int|
                0 <= i < items.len() && (#[trigger] items[i]) is Object && entry_keys(items[i]->Object_0).contains(
                    key,
                );
            if i < items.len() - 1 {
                assert(front[i] == items[i]);
                assert(met(front));
            }
        }
    }
}

/// Under distinct headers the record of a row pairs each header with the
/// field of its column, as far as both go: a row that is shorter than the
/// header row gives a record without the trailing keys, and the fields
/// beyond the header row are dropped.
pub proof fn lemma_keyed_entries_distinct(headers: Seq<Seq<char>>, row: Seq<Seq<char>>)
    requires
        headers.no_duplicates(),
    ensures
        keyed_entries(headers, row) == Seq::new(
            keyed_columns(headers, row),
            |i: int| (headers[i], Json::String(row[i])),
        ),
        forall|j: int|
            keyed_columns(headers, row) <= j < headers.len() ==> lookup(
                keyed_entries(headers, row),
                #[trigger] headers[j],
            ) is None,
{
    let n = keyed_columns(headers, row);
    lemma_keyed_prefix_distinct(headers, row, n);
    let entries = keyed_entries(headers, row);
    assert forall|j: int| n <= j < headers.len() implies lookup(entries, #[trigger] headers[j]) is None by {
        lemma_key_index(entries, headers[j]);
    }
}

/// The entries after the first `n` columns, under distinct headers.
proof fn lemma_keyed_prefix_distinct(headers: Seq<Seq<char>>, row: Seq<Seq<char>>, n: nat)
    requires
        headers.no_duplicates(),
        n <= keyed_columns(headers, row),
    ensures
        keyed_prefix(headers, row, n) == Seq::new(n, |i: int| (headers[i], Json::String(row[i]))),
    decreases n,
{
    let paired = Seq::new(n, |i: int| (headers[i], Json::String(row[i])));
    if n == 0 {
        assert(keyed_prefix(headers, row, n) =~= paired);
    } else {
        lemma_keyed_prefix_distinct(headers, row, (n - 1) as nat);
        let before = keyed_prefix(headers, row, (n - 1) as nat);
        assert forall|j: int| 0 <= j < before.len() implies (#[trigger] before[j]).0 != headers[n - 1] by {
            assert(before[j].0 == headers[j]);
        }
        lemma_with_new_entry(before, headers[n - 1], Json::String(row[n - 1]));
        assert(before.push((headers[n - 1], Json::String(row[n - 1]))) =~= paired);
    }
}

/// Whatever the headers, the record of a row holds strings only, under
/// keys that are headers, and no key twice.
pub proof fn lemma_keyed_entries_are_strings(headers: Seq<Seq<char>>, row: Seq<Seq<char>>)
    ensures
        entry_keys(keyed_entries(headers, row)).no_duplicates(),
        forall|i: int|
            0 <= i < keyed_entries(headers, row).len() ==> {
                let entry = #[trigger] keyed_entries(headers, row)[i];
                entry.1 is String && headers.contains(entry.0)
            },
{
    lemma_keyed_prefix_strings(headers, row, keyed_columns(headers, row));
}

/// The entries after the first `n` columns hold strings only, under keys
/// that are headers, and no key twice.
proof fn lemma_keyed_prefix_strings(headers: Seq<Seq<char>>, row: Seq<Seq<char>>, n: nat)
    requires
        n <= keyed_columns(headers, row),
    ensures
        entry_keys(keyed_prefix(headers, row, n)).no_duplicates(),
        forall|i: int|
            0 <= i < keyed_prefix(headers, row, n).len() ==> {
                let entry = #[trigger] keyed_prefix(headers, row, n)[i];
                entry.1 is String && headers.contains(entry.0)
            },
    decreases n,
{
    if n > 0 {
        lemma_keyed_prefix_strings(headers, row, (n - 1) as nat);
        let before = keyed_prefix(headers, row, (n - 1) as nat);
        let after = keyed_prefix(headers, row, n);
        let key = headers[n - 1];
        lemma_key_index(before, key);
        assert(headers.contains(key));
        let keys = entry_keys(after);
        assert forall|a: int, b: int| 0 <= a < keys.len() && 0 <= b < keys.len() && a != b implies keys[a]
            != keys[b] by {
            if a < before.len() && b < before.len() {
                assert(entry_keys(before)[a] != entry_keys(before)[b]);
            }
        }
    }
}

/// A key that a record lacks gives an empty cell.
pub proof fn lemma_missing_key_gives_empty_cell(entries: Seq<(Seq<char>, Json)>, headers: Seq<Seq<char>>, j: int)
    requires
        0 <= j < headers.len(),
        !entry_keys(entries).contains(headers[j]),
    ensures
        record_row(entries, headers)[j] == Seq::<char>::empty(),
{
    lemma_key_index(entries, headers[j]);
    if lookup(entries, headers[j]) is Some {
        let i = key_index(entries, headers[j])->0;
        assert(entry_keys(entries)[i] == headers[j]);
    }
}

/// The two policies on missing fields, one after the other: under distinct
/// headers a row that is shorter than the header row becomes a record
/// without the trailing keys, and that record becomes a row in which the
/// missing cells are empty.
pub proof fn lemma_short_row_comes_back_padded(headers: Seq<Seq<char>>, row: Seq<Seq<char>>)
    requires
        headers.no_duplicates(),
        row.len() <= headers.len(),
    ensures
        keyed_entries(headers, row).len() == row.len(),
        record_row(keyed_entries(headers, row), headers) == Seq::new(
            headers.len(),
            |j: int|
                if j < row.len() {
                    row[j]
                } else {
                    Seq::<char>::empty()
                },
        ),
{
    lemma_keyed_entries_distinct(headers, row);
    let entries = keyed_entries(headers, row);
    let keys = entry_keys(entries);
    assert forall|a: int, b: int| 0 <= a < keys.len() && 0 <= b < keys.len() && a != b implies keys[a]
        != keys[b] by {
        assert(keys[a] == headers[a] && keys[b] == headers[b]);
    }
    let padded = Seq::new(
        headers.len(),
        |j: int|
            if j < row.len() {
                row[j]
            } else {
                Seq::<char>::empty()
            },
    );
    assert forall|j: int| 0 <= j < headers.len() implies record_row(entries, headers)[j] == padded[j] by {
        if j < row.len() {
            lemma_key_index_distinct(entries, j);
        } else {
            lemma_key_index(entries, headers[j]);
        }
    }
    assert(record_row(entries, headers) =~= padded);
}

/// A table with distinct headers, at least one data row, and as many
/// fields in each row as there are headers comes back unchanged from its
/// document of records.
pub proof fn lemma_records_round_trip(table: TableView)
    requires
        table.headers is Some,
        table.headers->0.no_duplicates(),
        table.rectangular(),
        table.rows.len() > 0,
    ensures
        table_of(document_of(table, false)) == Ok::<TableView, ShapeError>(table),
{
    let headers = table.headers->0;
    let items = table.rows.map_values(|row: Seq<Seq<char>>| record_of(table.headers, row));
    assert(document_of(table, false) == Json::Array(items));
    lemma_record_items(headers, table.rows, table.rows.len() as int);
    assert(table.rows.take(table.rows.len() as int) =~= table.rows);
    assert(items.take(items.len() as int) =~= items);
    assert(items[0] is Object);
    let back = table_of(Json::Array(items))->Ok_0;
    assert(back.headers == table.headers);
    assert(back.rows == table.rows);
}

/// The union of headers and the rows of the records of the first `n` rows
/// of a table as in `lemma_records_round_trip`.
proof fn lemma_record_items(headers: Seq<Seq<char>>, rows: Seq<Seq<Seq<char>>>, n: int)
    requires
        headers.no_duplicates(),
        forall|i: int| 0 <= i < rows.len() ==> (#[trigger] rows[i]).len() == headers.len(),
        0 <= n <= rows.len(),
    ensures
        ({
            let items = rows.map_values(|row: Seq<Seq<char>>| record_of(Some(headers), row));
            &&& n > 0 ==> header_union(items.take(n)) == headers
            &&& record_rows(items.take(n), headers) == rows.take(n)
        }),
    decreases n,
{
    let items = rows.map_values(|row: Seq<Seq<char>>| record_of(Some(headers), row));
    if n == 0 {
        assert(record_rows(items.take(n), headers) =~= rows.take(n));
    } else {
        lemma_record_items(headers, rows, n - 1);
        let part = items.take(n);
        assert(part.drop_last() =~= items.take(n - 1));
        let row = rows[n - 1];
        let entries = keyed_entries(headers, row);
        assert(part.last() == Json::Object(entries));
        lemma_keyed_entries_distinct(headers, row);
        assert(entry_keys(entries) =~= headers);
        if n == 1 {
            assert(header_union(part.drop_last()) =~= Seq::<Seq<char>>::empty());
            assert forall|i: int| 0 <= i < headers.len() implies !Seq::<Seq<char>>::empty().contains(
                #[trigger] headers[i],
            ) by {}
            lemma_add_fresh_keys(Seq::empty(), headers);
            assert(Seq::<Seq<char>>::empty() + headers =~= headers);
        } else {
            assert forall|i: int| 0 <= i < headers.len() implies headers.contains(#[trigger] headers[i]) by {}
            lemma_add_known_keys(headers, headers);
        }
        lemma_short_row_comes_back_padded(headers, row);
        assert(record_row(entries, headers) =~= row);
        assert(rows.take(n - 1).push(row) =~= rows.take(n));
    }
}

/// The document of arrays of a table holds its lines: read back, it is the
/// table of those lines without a header row, and that table has the same
/// document. So rows that go through a document of arrays come back cell
/// for cell.
pub proof fn lemma_arrays_round_trip(table: TableView)
    ensures
        table_of(document_of(table, true)) == Ok::<TableView, ShapeError>(
            TableView { headers: None, rows: table.lines() },
        ),
        document_of(TableView { headers: None, rows: table.lines() }, true) == document_of(table, true),
{
    let lines = table.lines();
    let items = lines.map_values(|row: Seq<Seq<char>>| text_row(row));
    assert(document_of(table, true) == Json::Array(items));
    if lines.len() > 0 {
        lemma_all_arrays(lines, lines.len() as int);
        assert(items.take(items.len() as int) =~= items);
        assert forall|i: int| 0 <= i < lines.len() implies array_rows(items)[i] == lines[i] by {
            let cells = lines[i].map_values(|field: Seq<char>| Json::String(field));
            assert(items[i] == Json::Array(cells));
            assert(cells_text(cells) =~= lines[i]);
        }
        assert(array_rows(items) =~= lines);
        assert(items[0] is Array);
    } else {
        assert(lines =~= Seq::<Seq<Seq<char>>>::empty());
    }
}

/// Among rows of strings there is no item that is not an array.
proof fn lemma_all_arrays(lines: Seq<Seq<Seq<char>>>, n: int)
    requires
        0 <= n <= lines.len(),
    ensures
        first_non_array(lines.map_values(|row: Seq<Seq<char>>| text_row(row)).take(n)) is None,
    decreases n,
{
    let items = lines.map_values(|row: Seq<Seq<char>>| text_row(row));
    if n > 0 {
        lemma_all_arrays(lines, n - 1);
        assert(items.take(n).drop_last() =~= items.take(n - 1));
        assert(items.take(n).last() == text_row(lines[n - 1]));
    }
}

/// An empty array is the table without rows, which is written as no bytes
/// at all: no header row, no line.
pub proof fn lemma_empty_document(input: Seq<u8>, delimiter: char, quote_all: bool)
    ensures
        table_of(Json::Array(Seq::empty())) == Ok::<TableView, ShapeError>(
            TableView { headers: None, rows: Seq::empty() },
        ),
        encoded_table(TableView { headers: None, rows: Seq::empty() }, delimiter, quote_all) == Some(
            Seq::<u8>::empty(),
        ),
        json_decode(input) == Some(Json::Array(Seq::empty())) ==> json_to_csv_outcome(input, delimiter, quote_all)
            == Ok::<Seq<u8>, Failure>(Seq::empty()),
{
    let empty = TableView { headers: None, rows: Seq::empty() };
    assert(empty.lines().len() == 0);
}

/// The text of a string cell is the string itself, a `null` cell is empty,
/// a boolean is `true` or `false`, and a number is its own text.
pub proof fn lemma_plain_cells(text: Seq<char>)
    ensures
        cell_text(Json::String(text)) == text,
        cell_text(Json::Null) == Seq::<char>::empty(),
        cell_text(Json::Bool(true)) == "true"@,
        cell_text(Json::Bool(false)) == "false"@,
        cell_text(Json::Number(text)) == text,
{
}

} // verus!
