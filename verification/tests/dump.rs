use batg::dump::{dispatched, dump_row, dump_rows, finish, indent, resolve_row, resolve_table, table_for_file, RowsWriter};
use batg::flat_error::FlatBufferError;

const TABLES: &[&str] = &["CharacterExcelTable", "ItemExcelTable", "ShopExcelTable"];
const ROWS: &[&str] = &["CharacterExcel", "ItemExcel", "ItemExtraExcel"];

#[test]
fn resolve_table_ignores_case_directory_and_extension() {
    assert_eq!(resolve_table(TABLES, "characterexceltable.bytes"), Some("CharacterExcelTable"));
    assert_eq!(resolve_table(TABLES, "Excel/ItemExcelTable.bytes"), Some("ItemExcelTable"));
    assert_eq!(resolve_table(TABLES, "a/b/SHOPEXCELTABLE"), Some("ShopExcelTable"));
}

#[test]
fn resolve_table_strips_every_bytes_suffix() {
    assert_eq!(resolve_table(TABLES, "ItemExcelTable.bytes.bytes"), Some("ItemExcelTable"));
}

#[test]
fn resolve_table_unknown() {
    assert_eq!(resolve_table(TABLES, "Missing.bytes"), None);
    assert_eq!(resolve_table(TABLES, "ItemExcelTable/"), None);
    assert_eq!(resolve_table(&[], "ItemExcelTable"), None);
}

#[test]
fn resolve_table_first_match_wins() {
    let types = ["abc", "ABC"];
    assert_eq!(resolve_table(&types, "Abc"), Some("abc"));
}

#[test]
fn resolve_row_strips_db_schema() {
    assert_eq!(resolve_row(ROWS, "CharacterDBSchema"), Some("CharacterExcel"));
    assert_eq!(resolve_row(ROWS, "itemdbschema"), None);
    assert_eq!(resolve_row(ROWS, "item"), Some("ItemExcel"));
    assert_eq!(resolve_row(ROWS, "ITEMEXTRA"), Some("ItemExtraExcel"));
    assert_eq!(resolve_row(ROWS, "Shop"), None);
    assert_eq!(resolve_row(ROWS, "ItemDBSchemaDBSchema"), None);
}

#[test]
fn table_for_file_reports_unknown_name() {
    assert_eq!(table_for_file(TABLES, "x/ItemExcelTable.bytes").unwrap(), "ItemExcelTable");
    match table_for_file(TABLES, "x/Nope.bytes") {
        Err(FlatBufferError::UnknownTable(name)) => assert_eq!(name, "x/Nope.bytes"),
        other => panic!("unexpected {other:?}"),
    }
}

#[test]
fn indent_prefixes_each_line() {
    let mut out = String::from(">");
    indent(&mut out, "{\n  \"a\": 1\r\n}\n");
    assert_eq!(out, ">  {\n    \"a\": 1\n  }");
    let mut empty = String::new();
    indent(&mut empty, "");
    assert_eq!(empty, "");
    let mut lone = String::new();
    indent(&mut lone, "x\r");
    assert_eq!(lone, "  x\r");
    let mut blank = String::new();
    indent(&mut blank, "\n\n");
    assert_eq!(blank, "  \n  ");
}

#[test]
fn dump_rows_of_nothing_is_empty_array() {
    assert_eq!(dump_rows(&[]).unwrap(), "[]");
    assert_eq!(RowsWriter::new().finish(), "[]");
}

#[test]
fn dump_rows_joins_indented_rows() {
    let rows = vec![b"{\n  \"Id\": 1\n}".to_vec(), b"{\n  \"Id\": 2\n}".to_vec()];
    assert_eq!(
        dump_rows(&rows).unwrap(),
        "[\n  {\n    \"Id\": 1\n  },\n  {\n    \"Id\": 2\n  }\n]"
    );
}

#[test]
fn dump_rows_rejects_invalid_utf8() {
    let rows = vec![b"{}".to_vec(), vec![0xff, 0xfe]];
    assert!(matches!(dump_rows(&rows), Err(FlatBufferError::Utf8(_))));
}

#[test]
fn rows_writer_keeps_rows_after_error() {
    let mut w = RowsWriter::new();
    w.push(b"1").unwrap();
    assert!(w.push(&[0xc3]).is_err());
    w.push(b"2").unwrap();
    assert_eq!(w.finish(), "[\n  1,\n  2\n]");
}

#[test]
fn finish_decodes_utf8() {
    assert_eq!(finish("héllo".as_bytes().to_vec()).unwrap(), "héllo");
    assert!(matches!(finish(vec![0x80]), Err(FlatBufferError::Utf8(_))));
}

#[test]
fn dispatched_reports_unknown_types_and_passes_results_on() {
    match dispatched("NoSuchExcel", None) {
        Err(FlatBufferError::UnknownTable(name)) => assert_eq!(name, "NoSuchExcel"),
        other => panic!("unexpected {other:?}"),
    }
    assert!(dispatched("ItemExcel", Some(Ok(()))).is_ok());
    match dispatched("ItemExcel", Some(Err(FlatBufferError::Unsupported("map")))) {
        Err(FlatBufferError::Unsupported(label)) => assert_eq!(label, "map"),
        other => panic!("unexpected {other:?}"),
    }
}

#[test]
fn dump_row_reports_outcome_then_text() {
    let json = b"{\n  \"Id\": 1\n}".to_vec();
    assert_eq!(dump_row("ItemExcel", Some(Ok(())), json.clone()).unwrap(), "{\n  \"Id\": 1\n}");
    match dump_row("NoSuchExcel", None, json.clone()) {
        Err(FlatBufferError::UnknownTable(name)) => assert_eq!(name, "NoSuchExcel"),
        other => panic!("unexpected {other:?}"),
    }
    match dump_row("ItemExcel", Some(Err(FlatBufferError::Panic("boom".to_owned()))), json) {
        Err(FlatBufferError::Panic(message)) => assert_eq!(message, "boom"),
        other => panic!("unexpected {other:?}"),
    }
    assert!(matches!(
        dump_row("ItemExcel", Some(Ok(())), vec![0xff, 0xfe]),
        Err(FlatBufferError::Utf8(_))
    ));
}
