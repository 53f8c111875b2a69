use csv_json_converter::convert::{csv_to_json, json_to_csv, run, Command, ConvertError};
use csv_json_converter::to_table::ShapeError;

fn text(bytes: Vec<u8>) -> String {
    String::from_utf8(bytes).unwrap()
}

fn to_csv(json: &str) -> String {
    text(json_to_csv(json.as_bytes(), ',', false).unwrap())
}

fn to_json(csv: &str, array_format: bool, has_headers: bool) -> String {
    text(csv_to_json(csv.as_bytes(), array_format, ',', has_headers, false).unwrap())
}

#[test]
fn records_with_different_keys_become_a_table() {
    let json = r#"[{"name":"Alice","age":"30"},{"name":"Bob","city":"NYC"}]"#;
    assert_eq!(to_csv(json), "name,age,city\nAlice,30,\nBob,,NYC\n");
}

#[test]
fn table_with_headers_becomes_records() {
    let out = to_json("a,b\n1,2\n3,4", false, true);
    let expected = "[\n  {\n    \"a\": \"1\",\n    \"b\": \"2\"\n  },\n  {\n    \"a\": \"3\",\n    \"b\": \"4\"\n  }\n]";
    assert_eq!(out, expected);
    let parsed: serde_json::Value = serde_json::from_str(&out).unwrap();
    let wanted: serde_json::Value = serde_json::from_str(r#"[{"a":"1","b":"2"},{"a":"3","b":"4"}]"#).unwrap();
    assert_eq!(parsed, wanted);
}

#[test]
fn table_with_headers_becomes_arrays() {
    let out = to_json("a,b\n1,2\n", true, true);
    assert_eq!(out, "[\n  [\n    \"a\",\n    \"b\"\n  ],\n  [\n    \"1\",\n    \"2\"\n  ]\n]");
}

#[test]
fn table_without_headers_becomes_arrays() {
    let out = to_json("a,b\n1,2\n", true, false);
    assert_eq!(out, "[\n  [\n    \"a\",\n    \"b\"\n  ],\n  [\n    \"1\",\n    \"2\"\n  ]\n]");
}

#[test]
fn rows_without_headers_get_positional_keys() {
    let out = to_json("1,2\n3,4\n", false, false);
    let expected = "[\n  {\n    \"field0\": \"1\",\n    \"field1\": \"2\"\n  },\n  {\n    \"field0\": \"3\",\n    \"field1\": \"4\"\n  }\n]";
    assert_eq!(out, expected);
}

#[test]
fn positional_keys_count_in_decimal() {
    let out = to_json("a,b,c,d,e,f,g,h,i,j,k,l\n", false, false);
    let parsed: serde_json::Value = serde_json::from_str(&out).unwrap();
    let record = parsed[0].as_object().unwrap();
    let keys: Vec<&str> = record.keys().map(|k| k.as_str()).collect();
    assert_eq!(
        keys,
        vec![
            "field0", "field1", "field2", "field3", "field4", "field5", "field6", "field7", "field8", "field9",
            "field10", "field11"
        ]
    );
    assert_eq!(record["field10"], serde_json::Value::String("k".to_string()));
}

#[test]
fn short_row_gives_record_without_trailing_keys() {
    let out = to_json("a,b,c\n1,2\n", false, true);
    assert_eq!(out, "[\n  {\n    \"a\": \"1\",\n    \"b\": \"2\"\n  }\n]");
    let parsed: serde_json::Value = serde_json::from_str(&out).unwrap();
    assert!(parsed[0].as_object().unwrap().get("c").is_none());
}

#[test]
fn long_row_loses_fields_without_header() {
    let out = to_json("a,b\n1,2,3\n", false, true);
    assert_eq!(out, "[\n  {\n    \"a\": \"1\",\n    \"b\": \"2\"\n  }\n]");
}

#[test]
fn repeated_header_keeps_first_place_and_last_field() {
    let out = to_json("a,b,a\n1,2,3\n", false, true);
    assert_eq!(out, "[\n  {\n    \"a\": \"3\",\n    \"b\": \"2\"\n  }\n]");
}

#[test]
fn rows_of_unequal_length_are_read_as_they_are() {
    let out = to_json("a,b\n1\n2,3,4\n", true, true);
    let parsed: serde_json::Value = serde_json::from_str(&out).unwrap();
    let wanted: serde_json::Value = serde_json::from_str(r#"[["a","b"],["1"],["2","3","4"]]"#).unwrap();
    assert_eq!(parsed, wanted);
}

#[test]
fn missing_key_gives_empty_cell() {
    assert_eq!(to_csv(r#"[{"a":"1","b":"2"},{"a":"3"}]"#), "a,b\n1,2\n3,\n");
}

#[test]
fn short_row_comes_back_with_an_empty_cell() {
    let json = csv_to_json(b"a,b,c\n1,2\n", false, ',', true, false).unwrap();
    let csv = json_to_csv(&json, ',', false).unwrap();
    assert_eq!(text(csv), "a,b\n1,2\n");
    let json = csv_to_json(b"a,b,c\n1,2,3\n4,5\n", false, ',', true, false).unwrap();
    let csv = json_to_csv(&json, ',', false).unwrap();
    assert_eq!(text(csv), "a,b,c\n1,2,3\n4,5,\n");
}

#[test]
fn header_union_keeps_first_encounter_order() {
    assert_eq!(to_csv(r#"[{"a":1,"b":2},{"b":3,"c":4}]"#), "a,b,c\n1,2,\n,3,4\n");
    assert_eq!(to_csv(r#"[{"z":1},{"y":2,"z":3},{"x":4,"y":5}]"#), "z,y,x\n1,,\n3,2,\n,5,4\n");
}

#[test]
fn empty_array_gives_empty_output() {
    assert_eq!(json_to_csv(b"[]", ',', false).unwrap(), Vec::<u8>::new());
    assert_eq!(json_to_csv(b" [ ] ", ';', true).unwrap(), Vec::<u8>::new());
}

#[test]
fn field_with_delimiter_is_quoted_and_others_are_not() {
    assert_eq!(to_csv(r#"[["a,b","c"]]"#), "\"a,b\",c\n");
    assert_eq!(to_csv(r#"[["a;b","c"]]"#), "a;b,c\n");
    let out = json_to_csv(br#"[["a;b","a,b"]]"#, ';', false).unwrap();
    assert_eq!(text(out), "\"a;b\";a,b\n");
}

#[test]
fn quote_and_line_break_are_quoted() {
    assert_eq!(to_csv(r#"[["say \"hi\"","two\nlines","plain"]]"#), "\"say \"\"hi\"\"\",\"two\nlines\",plain\n");
}

#[test]
fn quote_all_quotes_every_field() {
    let out = json_to_csv(br#"[["1","x"],["2.5",""]]"#, ',', true).unwrap();
    assert_eq!(text(out), "\"1\",\"x\"\n\"2.5\",\"\"\n");
    let out = json_to_csv(br#"[{"n":"42"}]"#, ',', true).unwrap();
    assert_eq!(text(out), "\"n\"\n\"42\"\n");
}

#[test]
fn values_that_are_no_strings_are_written_as_their_text() {
    let json = r#"[[1, -7, 1.5, true, false, null, "s", [1,"x"], {"k":"v"}]]"#;
    assert_eq!(to_csv(json), "1,-7,1.5,true,false,,s,\"[1,\"\"x\"\"]\",\"{\"\"k\"\":\"\"v\"\"}\"\n");
}

#[test]
fn record_values_that_are_no_strings_are_written_as_their_text() {
    let json = r#"[{"n":30,"ok":true,"none":null,"list":[1,2],"deep":{"b":1,"a":2}}]"#;
    assert_eq!(to_csv(json), "n,ok,none,list,deep\n30,true,,\"[1,2]\",\"{\"\"b\"\":1,\"\"a\"\":2}\"\n");
}

#[test]
fn elements_that_are_no_records_are_skipped() {
    assert_eq!(to_csv(r#"[{"a":1}, "oops", {"b":2}]"#), "a,b\n1,\n,2\n");
}

#[test]
fn arrays_of_unequal_length_are_written_as_they_are() {
    assert_eq!(to_csv(r#"[["a","b"],["c"],["d","e","f"]]"#), "a,b\nc\nd,e,f\n");
}

#[test]
fn document_that_is_no_array_is_refused() {
    for json in [r#"{"a":1}"#, "1", "\"text\"", "null", "true"] {
        match json_to_csv(json.as_bytes(), ',', false) {
            Err(ConvertError::Shape(e)) => {
                assert_eq!(e, ShapeError::NotAnArray);
                assert_eq!(e.message(), "JSON must be an array");
            }
            other => panic!("unexpected outcome {:?}", other),
        }
    }
}

#[test]
fn row_that_is_no_array_is_refused_with_its_index() {
    match json_to_csv(br#"[["a"],["b"],{"c":1},5]"#, ',', false) {
        Err(e) => {
            assert!(matches!(e, ConvertError::Shape(ShapeError::RowNotArray { index: 2 })));
            assert_eq!(e.message(), "Row 2 is not an array");
        }
        other => panic!("unexpected outcome {:?}", other),
    }
}

#[test]
fn first_element_that_is_neither_array_nor_record_is_refused() {
    for json in ["[1,2]", r#"["a",["b"]]"#, r#"[null,{"a":1}]"#] {
        match json_to_csv(json.as_bytes(), ',', false) {
            Err(e) => {
                assert!(matches!(e, ConvertError::Shape(ShapeError::NotRowsOrRecords)));
                assert_eq!(e.message(), "JSON array must contain arrays or objects");
            }
            other => panic!("unexpected outcome {:?}", other),
        }
    }
}

#[test]
fn malformed_json_is_a_json_failure() {
    for json in ["", "[", r#"[{"a":1}"#, "[1,]", "[] []"] {
        let r = json_to_csv(json.as_bytes(), ',', false);
        assert!(matches!(r, Err(ConvertError::Json(_))));
        assert!(!r.unwrap_err().message().is_empty());
    }
}

#[test]
fn text_that_is_not_utf8_is_a_csv_failure() {
    let r = csv_to_json(b"a,b\n\xff,2\n", false, ',', true, false);
    assert!(matches!(r, Err(ConvertError::Csv(_))));
    assert!(!r.unwrap_err().message().is_empty());
    let r = csv_to_json(b"\xff,b\n1,2\n", true, ',', true, false);
    assert!(matches!(r, Err(ConvertError::Csv(_))));
    let r = csv_to_json(b"\xff,b\n1,2\n", true, ',', false, false);
    assert!(matches!(r, Err(ConvertError::Csv(_))));
}

#[test]
fn other_delimiters_are_honoured() {
    let out = csv_to_json(b"a;b\n1;2\n", false, ';', true, false).unwrap();
    assert_eq!(text(out), "[\n  {\n    \"a\": \"1\",\n    \"b\": \"2\"\n  }\n]");
    let out = csv_to_json(b"a\tb\n1,5\t2\n", true, '\t', true, false).unwrap();
    assert_eq!(text(out), "[\n  [\n    \"a\",\n    \"b\"\n  ],\n  [\n    \"1,5\",\n    \"2\"\n  ]\n]");
    let out = json_to_csv(br#"[{"a":"1","b":"2"}]"#, '\t', false).unwrap();
    assert_eq!(text(out), "a\tb\n1\t2\n");
}

#[test]
fn delimiter_is_known_by_its_low_byte() {
    // U+012C has the low byte 0x2C, the comma.
    let out = csv_to_json(b"a,b\n1,2\n", true, '\u{12c}', false, false).unwrap();
    assert_eq!(out, csv_to_json(b"a,b\n1,2\n", true, ',', false, false).unwrap());
    let out = json_to_csv(br#"[["a","b"]]"#, '\u{12c}', false).unwrap();
    assert_eq!(text(out), "a,b\n");
}

#[test]
fn unusual_delimiters_give_an_outcome() {
    for delimiter in ['"', '\n', '\r', '\0', ' ', '\u{ff}', 'a'] {
        let _ = csv_to_json(b"a,b\n\"1 a\",2\r\n\n3", false, delimiter, true, true);
        let _ = csv_to_json(b"a,b\n\"1 a\",2\r\n\n3", true, delimiter, false, false);
        let _ = json_to_csv(br#"[["a b","c\"d\n"],[]]"#, delimiter, false);
        let _ = json_to_csv(br#"[{"a b":"c\"d\n"},{}]"#, delimiter, true);
    }
}

#[test]
fn trim_removes_whitespace_around_fields() {
    let out = csv_to_json(b" a , b \n 1 ,\t2  \n", false, ',', true, true).unwrap();
    assert_eq!(text(out), "[\n  {\n    \"a\": \"1\",\n    \"b\": \"2\"\n  }\n]");
    let out = csv_to_json(b" a , b \n 1 , 2 \n", true, ',', false, true).unwrap();
    assert_eq!(text(out), "[\n  [\n    \"a\",\n    \"b\"\n  ],\n  [\n    \"1\",\n    \"2\"\n  ]\n]");
}

#[test]
fn without_trim_fields_are_kept_as_they_are() {
    let out = csv_to_json(b" a , b \n 1 , 2 \n", false, ',', true, false).unwrap();
    assert_eq!(text(out), "[\n  {\n    \" a \": \" 1 \",\n    \" b \": \" 2 \"\n  }\n]");
}

#[test]
fn quoted_fields_are_read_without_their_quotes() {
    let out = to_json("a,b\n\"x,y\",\"say \"\"hi\"\"\"\n", true, false);
    let parsed: serde_json::Value = serde_json::from_str(&out).unwrap();
    let wanted: serde_json::Value = serde_json::from_str(r#"[["a","b"],["x,y","say \"hi\""]]"#).unwrap();
    assert_eq!(parsed, wanted);
}

#[test]
fn empty_text_gives_an_empty_header_row_or_nothing() {
    assert_eq!(to_json("", true, true), "[\n  []\n]");
    assert_eq!(to_json("", true, false), "[]");
    assert_eq!(to_json("", false, true), "[]");
    assert_eq!(to_json("", false, false), "[]");
    assert_eq!(to_json("a,b\n", false, true), "[]");
}

#[test]
fn records_without_keys_give_rows_without_fields() {
    assert_eq!(to_csv("[{}]"), "\"\"\n\"\"\n");
    assert_eq!(to_csv("[[]]"), "\"\"\n");
}

#[test]
fn arrays_go_to_text_and_back_cell_for_cell() {
    let json = r#"[["name","note"],["Alice","likes, commas"],["Bob","says \"hi\""],["",""]]"#;
    let csv = json_to_csv(json.as_bytes(), ',', false).unwrap();
    let back = csv_to_json(&csv, true, ',', true, false).unwrap();
    let parsed: serde_json::Value = serde_json::from_slice(&back).unwrap();
    let wanted: serde_json::Value = serde_json::from_str(json).unwrap();
    assert_eq!(parsed, wanted);
    let again = json_to_csv(&back, ',', false).unwrap();
    assert_eq!(again, csv);
}

#[test]
fn records_go_to_text_and_back() {
    let csv = "name,age,city\nAlice,30,Paris\nBob,41,NYC\n";
    let json = csv_to_json(csv.as_bytes(), false, ',', true, false).unwrap();
    let back = json_to_csv(&json, ',', false).unwrap();
    assert_eq!(text(back), csv);
}

#[test]
fn run_chooses_the_conversion() {
    let to_json = Command::CsvToJson { array_format: false, delimiter: ',', has_headers: true, trim: false };
    assert_eq!(
        run(&to_json, b"a,b\n1,2\n").unwrap(),
        csv_to_json(b"a,b\n1,2\n", false, ',', true, false).unwrap()
    );
    let arrays = Command::CsvToJson { array_format: true, delimiter: ';', has_headers: false, trim: true };
    assert_eq!(run(&arrays, b" a;b\n").unwrap(), csv_to_json(b" a;b\n", true, ';', false, true).unwrap());
    let to_csv = Command::JsonToCsv { delimiter: ';', quote_all: true };
    assert_eq!(text(run(&to_csv, br#"[{"a":"1","b":"2"}]"#).unwrap()), "\"a\";\"b\"\n\"1\";\"2\"\n");
    assert!(matches!(run(&to_csv, b"{}"), Err(ConvertError::Shape(ShapeError::NotAnArray))));
    assert!(matches!(run(&to_json, b"\xff"), Err(ConvertError::Csv(_))));
}

#[test]
fn commands_confirm_in_their_own_words() {
    let to_json = Command::CsvToJson { array_format: false, delimiter: ',', has_headers: true, trim: false };
    let to_csv = Command::JsonToCsv { delimiter: ',', quote_all: false };
    assert_eq!(to_json.confirmation(), "CSV successfully converted to JSON");
    assert_eq!(to_csv.confirmation(), "JSON successfully converted to CSV");
}

#[test]
fn shape_errors_have_their_messages() {
    assert_eq!(ShapeError::NotAnArray.message(), "JSON must be an array");
    assert_eq!(ShapeError::RowNotArray { index: 0 }.message(), "Row 0 is not an array");
    assert_eq!(ShapeError::RowNotArray { index: 1234567 }.message(), "Row 1234567 is not an array");
    assert_eq!(ShapeError::NotRowsOrRecords.message(), "JSON array must contain arrays or objects");
    assert_eq!(ConvertError::Shape(ShapeError::RowNotArray { index: 10 }).message(), "Row 10 is not an array");
}
