use batg::builder::{schema_file, schema_files, table_name, Build};
use batg::dispatch::{
    collect, collect_names, join_path, namespace_split, path_string, type_path, TableInfo,
};
use std::path::PathBuf;

fn table(name: &str, namespace: Option<&str>, has_finish: bool) -> TableInfo {
    TableInfo { name: name.to_owned(), namespace: namespace.map(str::to_owned), has_finish }
}

fn tables() -> Vec<TableInfo> {
    vec![
        table("ShopExcelTable", Some("FlatData"), true),
        table("ItemExcelTable", Some("FlatData"), true),
        table("ItemExcelTable", Some("FlatData"), true),
        table("NoFinishTable", Some("FlatData"), false),
        table("OtherTable", Some("Other"), true),
        table("LooseTable", None, true),
        table("ItemExcel", Some("FlatData"), true),
        table("ItemExcel", Some("MX.Data.Excel"), true),
        table("AcademyExcel", Some("MX.Data.Excel"), true),
    ]
}

#[test]
fn path_string_joins_snake_case_modules() {
    assert_eq!(
        path_string("flatbuffers", "MX.Data.Excel", "ItemExcel"),
        "crate::flatbuffers::mx::data::excel::ItemExcel"
    );
    assert_eq!(path_string("fb", "..FlatData.", "T"), "crate::fb::flat_data::T");
    assert_eq!(path_string("fb", "", "T"), "crate::fb::T");
}

#[test]
fn namespace_split_drops_empty_parts() {
    assert_eq!(namespace_split("MX.Data.Excel"), ["MX", "Data", "Excel"]);
    assert_eq!(namespace_split("..FlatData."), ["FlatData"]);
    assert!(namespace_split("").is_empty());
    assert!(namespace_split("...").is_empty());
}

#[test]
fn join_path_keeps_modules_as_given() {
    let modules = vec!["MX".to_owned(), "data".to_owned()];
    assert_eq!(join_path("fb", &modules, "T"), "crate::fb::MX::data::T");
    assert_eq!(join_path("fb", &[], "T"), "crate::fb::T");
}

#[test]
fn type_path_parses_or_fails() {
    let path = type_path("flatbuffers", "FlatData", "ItemExcelTable").unwrap();
    assert_eq!(path.segments.len(), 4);
    assert_eq!(path.segments[2].ident.to_string(), "flat_data");
    assert!(type_path("flatbuffers", "FlatData", "Bad Name").is_err());
}

#[test]
fn collect_names_sorted_distinct_and_filtered() {
    let names = collect_names(&tables(), "FlatData", |n: &str| n.ends_with("Table"));
    assert_eq!(names, vec!["ItemExcelTable".to_owned(), "ShopExcelTable".to_owned()]);
    let all = collect_names(&tables(), "FlatData", |_: &str| true);
    assert_eq!(all, vec!["ItemExcel".to_owned(), "ItemExcelTable".to_owned(), "ShopExcelTable".to_owned()]);
}

#[test]
fn collect_builds_entries() {
    let entries = collect(&tables(), "flatbuffers", "MX.Data.Excel", |_: &str| true).unwrap();
    let names: Vec<&str> = entries.iter().map(|e| e.name.as_str()).collect();
    assert_eq!(names, ["AcademyExcel", "ItemExcel"]);
    assert_eq!(entries[0].path.segments.len(), 6);
    let bad = vec![table("1Bad", Some("FlatData"), true)];
    assert!(collect(&bad, "flatbuffers", "FlatData", |_: &str| true).is_err());
}

#[test]
fn build_defaults_and_setters() {
    let build = Build::new();
    assert_eq!(build.schema_path(), &PathBuf::from("schema"));
    assert_eq!(build.generated_path(), &PathBuf::from("src/flatbuffers"));
    assert_eq!(build.import_list(), &vec!["bacy::table_encryption_service".to_owned()]);
    let build = build
        .schema_dir(PathBuf::from("../../schema"))
        .generated_dir(PathBuf::from("out"))
        .imports(vec!["x".to_owned()]);
    assert_eq!(build.schema_path(), &PathBuf::from("../../schema"));
    assert_eq!(build.generated_path(), &PathBuf::from("out"));
    assert_eq!(build.import_list(), &vec!["x".to_owned()]);
}

#[test]
fn build_collects_tables_and_rows() {
    let build = Build::new();
    let t = build.collect_tables(&tables()).unwrap();
    let names: Vec<&str> = t.iter().map(|e| e.name.as_str()).collect();
    assert_eq!(names, ["ItemExcelTable", "ShopExcelTable"]);
    for e in &t {
        let idents: Vec<String> = e.path.segments.iter().map(|s| s.ident.to_string()).collect();
        assert_eq!(idents, ["crate", "flatbuffers", "flat_data", e.name.as_str()]);
    }
    let r = build.collect_rows(&tables()).unwrap();
    let names: Vec<&str> = r.iter().map(|e| e.name.as_str()).collect();
    assert_eq!(names, ["AcademyExcel", "ItemExcel"]);
    for e in &r {
        let idents: Vec<String> = e.path.segments.iter().map(|s| s.ident.to_string()).collect();
        assert_eq!(idents, ["crate", "flatbuffers", "mx", "data", "excel", e.name.as_str()]);
    }
    let custom = Build::new().module("gen".to_owned()).table_namespace("Other".to_owned()).row_namespace("None".to_owned());
    let t = custom.collect_tables(&tables()).unwrap();
    assert_eq!(t.len(), 1);
    assert_eq!(t[0].path.segments[1].ident.to_string(), "gen");
    assert!(custom.collect_rows(&tables()).unwrap().is_empty());
}

#[test]
fn table_names_end_with_table() {
    assert!(table_name("ItemExcelTable"));
    assert!(!table_name("ItemExcel"));
    assert!(table_name("Table"));
}

#[test]
fn schema_files_sorted_and_filtered() {
    let names: Vec<String> =
        ["b.fbs", "a.fbs", ".fbs", "c.FBS", "notes.txt", "..fbs", "a.fbs.bak"].iter().map(|s| s.to_string()).collect();
    assert_eq!(schema_files(&names), vec!["..fbs".to_owned(), "a.fbs".to_owned(), "b.fbs".to_owned()]);
    assert!(schema_file("x.fbs"));
    assert!(!schema_file(".fbs"));
}
