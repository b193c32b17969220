//! Choosing the table and row types that the generated dispatch code covers,
//! and the Rust path of each.

use crate::order::{insert_sorted, strictly_sorted, texts};
use crate::text::{chars_of, push_chars, string_of, text_eq};
use vstd::prelude::*;

verus! {

#[verifier::external_type_specification]
#[verifier::external_body]
pub struct ExSynPath(syn::Path);

#[verifier::external_type_specification]
#[verifier::external_body]
pub struct ExSynError(syn::Error);

/// What the dispatch code reads of one table of a schema: its name, its
/// namespace, and whether the schema analysis gives it a finish function.
#[derive(Debug)]
pub struct TableInfo {
    pub name: String,
    pub namespace: Option<String>,
    pub has_finish: bool,
}

/// One type that the dispatch code covers: its name and its Rust path.
pub struct Entry {
    pub name: String,
    pub path: syn::Path,
}

/// The snake-case form of `text`, as `heck` converts it.
pub uninterp spec fn snake_case(text: Seq<char>) -> Seq<char>;

/// `text` parses as a Rust path, as `syn` parses it.
pub uninterp spec fn parses_as_path(text: Seq<char>) -> bool;

/// Calls `heck::ToSnakeCase::to_snake_case`; its result is named
/// [`snake_case`] of the text.
#[verifier::external_body]
fn to_snake_case(text: &str) -> (snake: String)
    ensures
        snake@ == snake_case(text@),
{
    heck::ToSnakeCase::to_snake_case(text)
}

/// The path that `syn` parses `text` into. Outside a procedural macro, and
/// without `proc-macro2`'s `span-locations` feature, spans carry no position,
/// so the path is a function of the text alone.
pub uninterp spec fn parsed_path(text: Seq<char>) -> syn::Path;

/// Calls `syn::parse_str::<syn::Path>`; whether it succeeds is named
/// [`parses_as_path`] of the text, and the path it returns [`parsed_path`] of
/// it. The error is opaque.
#[verifier::external_body]
fn parse_path(text: &str) -> (res: Result<syn::Path, syn::Error>)
    ensures
        res is Ok <==> parses_as_path(text@),
        res matches Ok(p) ==> p == parsed_path(text@),
{
    syn::parse_str::<syn::Path>(text)
}

/// A table belongs to the dispatch code of `namespace` when it sits in that
/// namespace and has a finish function.
pub open spec fn qualifies(table: TableInfo, namespace: Seq<char>) -> bool {
    &&& table.has_finish
    &&& table.namespace matches Some(n)
    &&& n@ == namespace
}

/// The unfinished last part of a dotted namespace: what follows its last dot.
pub open spec fn dot_partial(s: Seq<char>) -> Seq<char>
    decreases s.len(),
{
    if s.len() == 0 {
        s
    } else if s.last() == '.' {
        Seq::empty()
    } else {
        dot_partial(s.drop_last()).push(s.last())
    }
}

/// The non-empty parts of `s` that a dot ends.
pub open spec fn dot_done(s: Seq<char>) -> Seq<Seq<char>>
    decreases s.len(),
{
    if s.len() == 0 {
        Seq::empty()
    } else if s.last() == '.' {
        if dot_partial(s.drop_last()).len() > 0 {
            dot_done(s.drop_last()).push(dot_partial(s.drop_last()))
        } else {
            dot_done(s.drop_last())
        }
    } else {
        dot_done(s.drop_last())
    }
}

/// The non-empty parts of a dotted namespace, in order.
pub open spec fn namespace_parts(s: Seq<char>) -> Seq<Seq<char>> {
    if dot_partial(s).len() > 0 {
        dot_done(s).push(dot_partial(s))
    } else {
        dot_done(s)
    }
}

pub open spec fn path_sep() -> Seq<char> {
    seq![':', ':']
}

/// Each part preceded by `::`.
pub open spec fn segments(parts: Seq<Seq<char>>) -> Seq<char>
    decreases parts.len(),
{
    if parts.len() == 0 {
        Seq::empty()
    } else {
        segments(parts.drop_last()) + path_sep() + parts.last()
    }
}

/// The snake-case module of each part.
pub open spec fn snake_parts(parts: Seq<Seq<char>>) -> Seq<Seq<char>> {
    parts.map_values(|p: Seq<char>| snake_case(p))
}

/// `crate`, the module, the modules, and the name, joined by `::`.
pub open spec fn joined_path(module: Seq<char>, modules: Seq<Seq<char>>, name: Seq<char>) -> Seq<
    char,
> {
    seq!['c', 'r', 'a', 't', 'e'] + path_sep() + module + segments(modules) + path_sep() + name
}

/// The text of the path of type `name`: `crate`, the module, the namespace
/// parts in snake case, and the name, joined by `::`.
pub open spec fn path_text(module: Seq<char>, namespace: Seq<char>, name: Seq<char>) -> Seq<char> {
    joined_path(module, snake_parts(namespace_parts(namespace)), name)
}

fn push_sep(text: &mut String)
    ensures
        final(text)@ == old(text)@ + path_sep(),
{
    let sep: [char; 2] = [':', ':'];
    push_chars(text, sep.as_slice());
}

/// The non-empty parts of a dotted namespace, in order.
pub fn namespace_split(namespace: &str) -> (parts: Vec<String>)
    ensures
        texts(parts@) == namespace_parts(namespace@),
{
    let ns = chars_of(namespace);
    let mut parts: Vec<String> = Vec::new();
    let mut cur: Vec<char> = Vec::new();
    assert(texts(parts@) =~= dot_done(ns@.take(0)));
    for i in 0..ns.len()
        invariant
            ns@ == namespace@,
            cur@ == dot_partial(ns@.take(i as int)),
            texts(parts@) == dot_done(ns@.take(i as int)),
    {
        let ghost before = ns@.take(i as int);
        let ghost after = ns@.take(i + 1);
        assert(after.drop_last() == before);
        if ns[i] == '.' {
            if cur.len() > 0 {
                let ghost done = texts(parts@);
                parts.push(string_of(cur.as_slice()));
                assert(texts(parts@) =~= done.push(cur@));
            }
            cur = Vec::new();
            assert(cur@ =~= dot_partial(after));
        } else {
            cur.push(ns[i]);
        }
    }
    assert(ns@.take(ns@.len() as int) == ns@);
    if cur.len() > 0 {
        let ghost done = texts(parts@);
        parts.push(string_of(cur.as_slice()));
        assert(texts(parts@) =~= done.push(cur@));
    }
    parts
}

/// The text of the path of type `name` in `module`, through `modules`.
pub fn join_path(module: &str, modules: &[String], name: &str) -> (text: String)
    ensures
        text@ == joined_path(module@, texts(modules@), name@),
{
    let head: [char; 5] = ['c', 'r', 'a', 't', 'e'];
    let mut text = String::new();
    push_chars(&mut text, head.as_slice());
    push_sep(&mut text);
    text.append(module);
    let ghost start = text@;
    for i in 0..modules.len()
        invariant
            text@ == start + segments(texts(modules@).take(i as int)),
    {
        push_sep(&mut text);
        text.append(modules[i].as_str());
        assert(texts(modules@).take(i + 1).drop_last() == texts(modules@).take(i as int));
    }
    assert(texts(modules@).take(modules@.len() as int) == texts(modules@));
    push_sep(&mut text);
    text.append(name);
    text
}

/// The text of the path of type `name` in `module` and `namespace`.
pub fn path_string(module: &str, namespace: &str, name: &str) -> (text: String)
    ensures
        text@ == path_text(module@, namespace@, name@),
{
    let parts = namespace_split(namespace);
    let mut modules: Vec<String> = Vec::new();
    for i in 0..parts.len()
        invariant
            texts(parts@) == namespace_parts(namespace@),
            texts(modules@) == snake_parts(texts(parts@).take(i as int)),
    {
        modules.push(to_snake_case(parts[i].as_str()));
        assert(snake_parts(texts(parts@).take(i + 1)) =~= snake_parts(texts(parts@).take(i as int)).push(
            snake_case(parts@[i as int]@),
        ));
        assert(texts(modules@) =~= snake_parts(texts(parts@).take(i + 1)));
    }
    assert(texts(parts@).take(parts@.len() as int) == texts(parts@));
    join_path(module, modules.as_slice(), name)
}

/// The Rust path of type `name` in `module` and `namespace`; fails with the
/// parser's error when its text is not a path.
pub fn type_path(module: &str, namespace: &str, name: &str) -> (res: Result<syn::Path, syn::Error>)
    ensures
        res is Ok <==> parses_as_path(path_text(module@, namespace@, name@)),
        res matches Ok(p) ==> p == parsed_path(path_text(module@, namespace@, name@)),
{
    let text = path_string(module, namespace, name);
    parse_path(text.as_str())
}

/// `names` is what the dispatch code of `namespace` covers when `keep`
/// decides which names to keep: the qualifying tables' names that `keep`
/// accepts, each once, in order.
pub open spec fn names_for(
    tables: Seq<TableInfo>,
    namespace: Seq<char>,
    keep: spec_fn(Seq<char>) -> bool,
    names: Seq<Seq<char>>,
) -> bool {
    &&& strictly_sorted(names)
    &&& forall|s: Seq<char>|
        names.contains(s) <==> exists|i: int|
            0 <= i < tables.len() && qualifies(tables[i], namespace) && tables[i].name@ == s && keep(
                s,
            )
}

/// `names` is what the dispatch code of `namespace` covers when `filter`
/// decides which names to keep: each is the name of a qualifying table that
/// `filter` accepted, and each qualifying table's name is there unless
/// `filter` rejected it; each once, in order.
pub open spec fn names_kept<F: Fn(&str) -> bool>(
    tables: Seq<TableInfo>,
    namespace: Seq<char>,
    filter: F,
    names: Seq<Seq<char>>,
) -> bool {
    &&& strictly_sorted(names)
    &&& forall|s: Seq<char>|
        #![trigger names.contains(s)]
        names.contains(s) ==> (exists|i: int|
            0 <= i < tables.len() && qualifies(tables[i], namespace) && tables[i].name@ == s)
            && (exists|x: &str| x@ == s && filter.ensures((x,), true))
    &&& forall|i: int|
        0 <= i < tables.len() && qualifies(#[trigger] tables[i], namespace) ==> names.contains(
            tables[i].name@,
        ) || (exists|x: &str| x@ == tables[i].name@ && filter.ensures((x,), false))
}

/// The names of the tables of `namespace` that have a finish function and
/// that `filter` keeps, each once, in order.
pub fn collect_names<F: Fn(&str) -> bool>(tables: &[TableInfo], namespace: &str, filter: F) -> (names:
    Vec<String>)
    requires
        forall|x: &str| filter.requires((x,)),
    ensures
        names_kept(tables@, namespace@, filter, texts(names@)),
{
    let mut names: Vec<String> = Vec::new();
    assert(texts(names@) =~= Seq::<Seq<char>>::empty());
    for i in 0..tables.len()
        invariant
            forall|x: &str| filter.requires((x,)),
            strictly_sorted(texts(names@)),
            forall|s: Seq<char>|
                #![trigger texts(names@).contains(s)]
                texts(names@).contains(s) ==> (exists|k: int|
                    0 <= k < tables@.len() && qualifies(tables@[k], namespace@) && tables@[k].name@
                        == s) && (exists|x: &str| x@ == s && filter.ensures((x,), true)),
            forall|k: int|
                0 <= k < i && qualifies(#[trigger] tables@[k], namespace@) ==> texts(
                    names@,
                ).contains(tables@[k].name@) || (exists|x: &str|
                    x@ == tables@[k].name@ && filter.ensures((x,), false)),
    {
        let table = &tables[i];
        let in_namespace = match &table.namespace {
            Some(n) => text_eq(n.as_str(), namespace),
            None => false,
        };
        if in_namespace && table.has_finish {
            let name = table.name.as_str();
            let keep = filter(name);
            if keep {
                let ghost before = texts(names@);
                insert_sorted(&mut names, name);
                assert(texts(names@).contains(name@));
            }
        }
    }
    names
}

/// The entries of the tables of `namespace` that have a finish function and
/// that `filter` keeps, by name, each once, with their paths in `module`.
///
/// Fails with the parser's error when the path text of some kept name is not
/// a Rust path.
pub fn collect<F: Fn(&str) -> bool>(
    tables: &[TableInfo],
    module: &str,
    namespace: &str,
    filter: F,
) -> (res: Result<Vec<Entry>, syn::Error>)
    requires
        forall|x: &str| filter.requires((x,)),
    ensures
        match res {
            Ok(entries) => {
                &&& names_kept(tables@, namespace@, filter, entry_names(entries@))
                &&& forall|i: int|
                    0 <= i < entries@.len() ==> parses_as_path(
                        path_text(module@, namespace@, #[trigger] entries@[i].name@),
                    )
                &&& forall|i: int|
                    0 <= i < entries@.len() ==> (#[trigger] entries@[i]).path == parsed_path(
                        path_text(module@, namespace@, entries@[i].name@),
                    )
            },
            Err(_) => exists|names: Seq<Seq<char>>|
                names_kept(tables@, namespace@, filter, names) && exists|i: int|
                    0 <= i < names.len() && !parses_as_path(
                        path_text(module@, namespace@, #[trigger] names[i]),
                    ),
        },
{
    let names = collect_names(tables, namespace, filter);
    let ghost kept = texts(names@);
    let mut entries: Vec<Entry> = Vec::new();
    for i in 0..names.len()
        invariant
            kept == texts(names@),
            names_kept(tables@, namespace@, filter, kept),
            entries@.len() == i,
            entry_names(entries@) == kept.take(i as int),
            forall|k: int|
                0 <= k < i ==> parses_as_path(path_text(module@, namespace@, #[trigger] kept[k])),
            forall|k: int|
                0 <= k < i ==> (#[trigger] entries@[k]).path == parsed_path(
                    path_text(module@, namespace@, entries@[k].name@),
                ),
    {
        let name = &names[i];
        let path = match type_path(module, namespace, name.as_str()) {
            Ok(path) => path,
            Err(e) => {
                assert(!parses_as_path(path_text(module@, namespace@, kept[i as int])));
                return Err(e);
            },
        };
        assert(kept[i as int] == names@[i as int]@);
        entries.push(Entry { name: name.clone(), path });
        assert(entry_names(entries@) =~= kept.take(i + 1));
    }
    assert(kept.take(names@.len() as int) =~= kept);
    assert forall|i: int| 0 <= i < entries@.len() implies parses_as_path(
        path_text(module@, namespace@, #[trigger] entries@[i].name@),
    ) by {
        assert(entries@[i].name@ == kept[i]);
    }
    Ok(entries)
}

/// The names of `entries`.
pub open spec fn entry_names(entries: Seq<Entry>) -> Seq<Seq<char>> {
    entries.map_values(|e: Entry| e.name@)
}

} // verus!
