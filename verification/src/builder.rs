//! Configuration of the code generation that a build script runs, and the
//! choices it makes: which schema files to read and which types to dispatch.

use crate::dispatch::{
    Entry, TableInfo, collect, entry_names, names_for, names_kept, parsed_path, parses_as_path,
    path_text,
};
use crate::order::{insert_sorted, strictly_sorted, texts};
use crate::text::{ends_with, text_ends_with};
use std::path::PathBuf;
use vstd::prelude::*;

verus! {

/// The path that `PathBuf::from` makes of `text`.
pub uninterp spec fn path_of(text: Seq<char>) -> PathBuf;

/// Calls `PathBuf::from` on the text; its result is named [`path_of`] of it.
#[verifier::external_body]
fn path_from(text: &str) -> (path: PathBuf)
    ensures
        path == path_of(text@),
{
    PathBuf::from(text)
}

/// Where the schema lives, where generated code goes, and the module and
/// namespaces that the dispatch code covers.
pub struct Build {
    schema_dir: PathBuf,
    generated_dir: PathBuf,
    module: String,
    table_namespace: String,
    row_namespace: String,
    imports: Vec<String>,
}

/// The plain content of a [`Build`].
pub struct BuildModel {
    pub schema_dir: PathBuf,
    pub generated_dir: PathBuf,
    pub module: Seq<char>,
    pub table_namespace: Seq<char>,
    pub row_namespace: Seq<char>,
    pub imports: Seq<Seq<char>>,
}

impl View for Build {
    type V = BuildModel;

    closed spec fn view(&self) -> BuildModel {
        BuildModel {
            schema_dir: self.schema_dir,
            generated_dir: self.generated_dir,
            module: self.module@,
            table_namespace: self.table_namespace@,
            row_namespace: self.row_namespace@,
            imports: texts(self.imports@),
        }
    }
}

impl Default for Build {
    /// Schema in `schema`, generated code in `src/flatbuffers`, module
    /// `flatbuffers`, tables in `FlatData`, rows in `MX.Data.Excel`, and the
    /// table encryption service imported.
    fn default() -> (build: Self)
        ensures
            build@.schema_dir == path_of("schema"@),
            build@.generated_dir == path_of("src/flatbuffers"@),
            build@.module == "flatbuffers"@,
            build@.table_namespace == "FlatData"@,
            build@.row_namespace == "MX.Data.Excel"@,
            build@.imports == seq!["bacy::table_encryption_service"@],
    {
        let mut imports: Vec<String> = Vec::new();
        imports.push("bacy::table_encryption_service".to_owned());
        let build = Self {
            schema_dir: path_from("schema"),
            generated_dir: path_from("src/flatbuffers"),
            module: "flatbuffers".to_owned(),
            table_namespace: "FlatData".to_owned(),
            row_namespace: "MX.Data.Excel".to_owned(),
            imports,
        };
        assert(build@.imports =~= seq!["bacy::table_encryption_service"@]);
        build
    }
}

impl Build {
    /// The default configuration.
    pub fn new() -> (build: Self)
        ensures
            build@.schema_dir == path_of("schema"@),
            build@.generated_dir == path_of("src/flatbuffers"@),
            build@.module == "flatbuffers"@,
            build@.table_namespace == "FlatData"@,
            build@.row_namespace == "MX.Data.Excel"@,
            build@.imports == seq!["bacy::table_encryption_service"@],
    {
        Self::default()
    }

    /// Reads the schema from `dir`.
    pub fn schema_dir(self, dir: PathBuf) -> (build: Self)
        ensures
            build@.schema_dir == dir,
            build@.generated_dir == self@.generated_dir,
            build@.module == self@.module,
            build@.table_namespace == self@.table_namespace,
            build@.row_namespace == self@.row_namespace,
            build@.imports == self@.imports,
    {
        Self { schema_dir: dir, ..self }
    }

    /// Writes generated code to `dir`.
    pub fn generated_dir(self, dir: PathBuf) -> (build: Self)
        ensures
            build@.generated_dir == dir,
            build@.schema_dir == self@.schema_dir,
            build@.module == self@.module,
            build@.table_namespace == self@.table_namespace,
            build@.row_namespace == self@.row_namespace,
            build@.imports == self@.imports,
    {
        Self { generated_dir: dir, ..self }
    }

    /// Names the crate module that holds generated code.
    pub fn module(self, module: String) -> (build: Self)
        ensures
            build@.module == module@,
            build@.schema_dir == self@.schema_dir,
            build@.generated_dir == self@.generated_dir,
            build@.table_namespace == self@.table_namespace,
            build@.row_namespace == self@.row_namespace,
            build@.imports == self@.imports,
    {
        Self { module, ..self }
    }

    /// Sets the namespace of the table types.
    pub fn table_namespace(self, namespace: String) -> (build: Self)
        ensures
            build@.table_namespace == namespace@,
            build@.schema_dir == self@.schema_dir,
            build@.generated_dir == self@.generated_dir,
            build@.module == self@.module,
            build@.row_namespace == self@.row_namespace,
            build@.imports == self@.imports,
    {
        Self { table_namespace: namespace, ..self }
    }

    /// Sets the namespace of the row types.
    pub fn row_namespace(self, namespace: String) -> (build: Self)
        ensures
            build@.row_namespace == namespace@,
            build@.schema_dir == self@.schema_dir,
            build@.generated_dir == self@.generated_dir,
            build@.module == self@.module,
            build@.table_namespace == self@.table_namespace,
            build@.imports == self@.imports,
    {
        Self { row_namespace: namespace, ..self }
    }

    /// Sets the imports of generated code.
    pub fn imports(self, imports: Vec<String>) -> (build: Self)
        ensures
            build@.imports == texts(imports@),
            build@.schema_dir == self@.schema_dir,
            build@.generated_dir == self@.generated_dir,
            build@.module == self@.module,
            build@.table_namespace == self@.table_namespace,
            build@.row_namespace == self@.row_namespace,
    {
        Self { imports, ..self }
    }

    /// Where the schema is read from.
    pub fn schema_path(&self) -> (dir: &PathBuf)
        ensures
            *dir == self@.schema_dir,
    {
        &self.schema_dir
    }

    /// Where generated code is written.
    pub fn generated_path(&self) -> (dir: &PathBuf)
        ensures
            *dir == self@.generated_dir,
    {
        &self.generated_dir
    }

    /// The imports of generated code.
    pub fn import_list(&self) -> (imports: &Vec<String>)
        ensures
            texts(imports@) == self@.imports,
    {
        &self.imports
    }

    /// The table types to dispatch: tables of the table namespace with a
    /// finish function whose names end with `Table`.
    pub fn collect_tables(&self, tables: &[TableInfo]) -> (res: Result<Vec<Entry>, syn::Error>)
        ensures
            match res {
                Ok(entries) => {
                    &&& table_names(tables@, self@.table_namespace, entry_names(entries@))
                    &&& forall|i: int|
                        0 <= i < entries@.len() ==> parses_as_path(
                            path_text(self@.module, self@.table_namespace, #[trigger] entries@[i].name@),
                        )
                    &&& forall|i: int|
                        0 <= i < entries@.len() ==> (#[trigger] entries@[i]).path == parsed_path(
                            path_text(self@.module, self@.table_namespace, entries@[i].name@),
                        )
                },
                Err(_) => exists|names: Seq<Seq<char>>|
                    #[trigger] table_names(tables@, self@.table_namespace, names) && exists|i: int|
                        0 <= i < names.len() && !parses_as_path(
                            path_text(self@.module, self@.table_namespace, #[trigger] names[i]),
                        ),
            },
    {
        let filter = |name: &str| -> (keep: bool)
            ensures
                keep == is_table_name(name@),
            { table_name(name) };
        let res = collect(tables, self.module.as_str(), self.table_namespace.as_str(), filter);
        proof {
            let keep = |s: Seq<char>| is_table_name(s);
            assert(forall|x: &str, b: bool| filter.ensures((x,), b) ==> b == keep(x@));
            match &res {
                Ok(entries) => {
                    lemma_kept_names(tables@, self@.table_namespace, filter, keep, entry_names(entries@));
                    assert(table_names(tables@, self@.table_namespace, entry_names(entries@)));
                },
                Err(_) => {
                    let names = choose|names: Seq<Seq<char>>|
                        names_kept(tables@, self@.table_namespace, filter, names) && exists|i: int|
                            0 <= i < names.len() && !parses_as_path(
                                path_text(self@.module, self@.table_namespace, #[trigger] names[i]),
                            );
                    lemma_kept_names(tables@, self@.table_namespace, filter, keep, names);
                    assert(table_names(tables@, self@.table_namespace, names));
                },
            }
        }
        res
    }

    /// The row types to dispatch: every table of the row namespace with a
    /// finish function.
    pub fn collect_rows(&self, tables: &[TableInfo]) -> (res: Result<Vec<Entry>, syn::Error>)
        ensures
            match res {
                Ok(entries) => {
                    &&& row_names(tables@, self@.row_namespace, entry_names(entries@))
                    &&& forall|i: int|
                        0 <= i < entries@.len() ==> parses_as_path(
                            path_text(self@.module, self@.row_namespace, #[trigger] entries@[i].name@),
                        )
                    &&& forall|i: int|
                        0 <= i < entries@.len() ==> (#[trigger] entries@[i]).path == parsed_path(
                            path_text(self@.module, self@.row_namespace, entries@[i].name@),
                        )
                },
                Err(_) => exists|names: Seq<Seq<char>>|
                    #[trigger] row_names(tables@, self@.row_namespace, names) && exists|i: int|
                        0 <= i < names.len() && !parses_as_path(
                            path_text(self@.module, self@.row_namespace, #[trigger] names[i]),
                        ),
            },
    {
        let filter = |name: &str| -> (keep: bool)
            ensures
                keep,
            { true };
        let res = collect(tables, self.module.as_str(), self.row_namespace.as_str(), filter);
        proof {
            let keep = |s: Seq<char>| true;
            assert(forall|x: &str, b: bool| filter.ensures((x,), b) ==> b == keep(x@));
            match &res {
                Ok(entries) => {
                    lemma_kept_names(tables@, self@.row_namespace, filter, keep, entry_names(entries@));
                    assert(row_names(tables@, self@.row_namespace, entry_names(entries@)));
                },
                Err(_) => {
                    let names = choose|names: Seq<Seq<char>>|
                        names_kept(tables@, self@.row_namespace, filter, names) && exists|i: int|
                            0 <= i < names.len() && !parses_as_path(
                                path_text(self@.module, self@.row_namespace, #[trigger] names[i]),
                            );
                    lemma_kept_names(tables@, self@.row_namespace, filter, keep, names);
                    assert(row_names(tables@, self@.row_namespace, names));
                },
            }
        }
        res
    }
}

/// The table types of `namespace`: those whose names end with `Table`.
pub open spec fn table_names(tables: Seq<TableInfo>, namespace: Seq<char>, names: Seq<Seq<char>>) -> bool {
    names_for(tables, namespace, |s: Seq<char>| is_table_name(s), names)
}

/// The row types of `namespace`: all of them.
pub open spec fn row_names(tables: Seq<TableInfo>, namespace: Seq<char>, names: Seq<Seq<char>>) -> bool {
    names_for(tables, namespace, |s: Seq<char>| true, names)
}

/// When a filter answers as `keep` does, the names it lets through are
/// exactly those that `keep` accepts.
proof fn lemma_kept_names<F: Fn(&str) -> bool>(
    tables: Seq<TableInfo>,
    namespace: Seq<char>,
    filter: F,
    keep: spec_fn(Seq<char>) -> bool,
    names: Seq<Seq<char>>,
)
    requires
        forall|x: &str, b: bool| filter.ensures((x,), b) ==> b == keep(x@),
        names_kept(tables, namespace, filter, names),
    ensures
        names_for(tables, namespace, keep, names),
{
    assert forall|s: Seq<char>|
        names.contains(s) <==> exists|i: int|
            0 <= i < tables.len() && crate::dispatch::qualifies(tables[i], namespace)
                && tables[i].name@ == s && keep(s) by {
        if names.contains(s) {
            let x = choose|x: &str| x@ == s && filter.ensures((x,), true);
        }
        if exists|i: int|
            0 <= i < tables.len() && crate::dispatch::qualifies(tables[i], namespace)
                && tables[i].name@ == s && keep(s) {
            let i = choose|i: int|
                0 <= i < tables.len() && crate::dispatch::qualifies(tables[i], namespace)
                    && tables[i].name@ == s && keep(s);
            if !names.contains(tables[i].name@) {
                let x = choose|x: &str| x@ == tables[i].name@ && filter.ensures((x,), false);
            }
        }
    }
}

pub open spec fn table_suffix() -> Seq<char> {
    seq!['T', 'a', 'b', 'l', 'e']
}

/// Table types are named `...Table`.
pub open spec fn is_table_name(name: Seq<char>) -> bool {
    ends_with(name, table_suffix())
}

/// The name ends with `Table`.
pub fn table_name(name: &str) -> (yes: bool)
    ensures
        yes == is_table_name(name@),
{
    let suffix: [char; 5] = ['T', 'a', 'b', 'l', 'e'];
    assert(suffix@ == table_suffix());
    text_ends_with(name, suffix.as_slice())
}

pub open spec fn fbs_ext() -> Seq<char> {
    seq!['.', 'f', 'b', 's']
}

/// A schema file has the extension `fbs`: its name ends with `.fbs` after at
/// least one other character.
pub open spec fn is_schema_file(name: Seq<char>) -> bool {
    ends_with(name, fbs_ext()) && name.len() > fbs_ext().len()
}

/// The file name has the extension `fbs`.
pub fn schema_file(name: &str) -> (yes: bool)
    ensures
        yes == is_schema_file(name@),
{
    let ext: [char; 4] = ['.', 'f', 'b', 's'];
    assert(ext@ == fbs_ext());
    text_ends_with(name, ext.as_slice()) && crate::text::chars_of(name).len() > 4
}

/// The schema files among the names of a directory's entries, in order.
pub fn schema_files(names: &[String]) -> (files: Vec<String>)
    ensures
        strictly_sorted(texts(files@)),
        forall|s: Seq<char>|
            texts(files@).contains(s) <==> exists|i: int|
                0 <= i < names@.len() && names@[i]@ == s && is_schema_file(s),
{
    let mut files: Vec<String> = Vec::new();
    assert(texts(files@) =~= Seq::<Seq<char>>::empty());
    for i in 0..names.len()
        invariant
            strictly_sorted(texts(files@)),
            forall|s: Seq<char>|
                texts(files@).contains(s) <==> exists|k: int|
                    0 <= k < i && names@[k]@ == s && is_schema_file(s),
    {
        let name = names[i].as_str();
        if schema_file(name) {
            insert_sorted(&mut files, name);
        }
        assert forall|s: Seq<char>|
            texts(files@).contains(s) <==> exists|k: int|
                0 <= k < i + 1 && names@[k]@ == s && is_schema_file(s) by {
            if s == names@[i as int]@ && is_schema_file(s) {
                assert(texts(files@).contains(s));
            }
        }
    }
    files
}

} // verus!
