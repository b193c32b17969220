//! Resolving table and row type names, and laying out decoded rows as JSON.

use crate::flat_error::FlatBufferError;
use crate::text::{
    chars_of, ends_with, ends_with_at, eq_ignore_ascii_case, eq_ignore_ascii_case_at, fold, push_char,
    push_chars, same_ignoring_case, utf8_str,
};
use vstd::prelude::*;
use vstd::utf8::*;

verus! {

/// Where the last path component of `path[..end]` starts: just after the last
/// `/`, or at 0 when there is none.
pub open spec fn name_start(path: Seq<char>, end: nat) -> nat
    decreases end,
{
    if end == 0 || end > path.len() {
        0
    } else if path[end - 1] == '/' {
        end
    } else {
        name_start(path, (end - 1) as nat)
    }
}

/// The last path component of `path`.
pub open spec fn base_name(path: Seq<char>) -> Seq<char> {
    path.subrange(name_start(path, path.len()) as int, path.len() as int)
}

/// `s` with every trailing copy of `suffix` removed, as `trim_end_matches` does.
pub open spec fn trim_suffixes(s: Seq<char>, suffix: Seq<char>) -> Seq<char>
    decreases s.len(),
{
    if suffix.len() > 0 && ends_with(s, suffix) {
        trim_suffixes(s.take(s.len() - suffix.len()), suffix)
    } else {
        s
    }
}

pub open spec fn bytes_ext() -> Seq<char> {
    seq!['.', 'b', 'y', 't', 'e', 's']
}

pub open spec fn db_schema() -> Seq<char> {
    seq!['D', 'B', 'S', 'c', 'h', 'e', 'm', 'a']
}

pub open spec fn excel() -> Seq<char> {
    seq!['E', 'x', 'c', 'e', 'l']
}

/// The table name that a file name stands for: its last path component with
/// every trailing `.bytes` removed.
pub open spec fn table_stem(filename: Seq<char>) -> Seq<char> {
    trim_suffixes(base_name(filename), bytes_ext())
}

/// The row type family of a table name: the name without one trailing
/// `DBSchema`.
pub open spec fn row_base(table_name: Seq<char>) -> Seq<char> {
    if ends_with(table_name, db_schema()) {
        table_name.take(table_name.len() - db_schema().len())
    } else {
        table_name
    }
}

/// `entry` is the row type of `base`: `base` then `Excel`, without ASCII case.
pub open spec fn row_match(entry: Seq<char>, base: Seq<char>) -> bool {
    &&& entry.len() == base.len() + excel().len()
    &&& same_ignoring_case(entry.take(base.len() as int), base)
    &&& same_ignoring_case(entry.skip(base.len() as int), excel())
}

/// A row type of `base` is exactly `base` followed by `Excel` and nothing
/// more: its length is that of `base` plus five, its first characters equal
/// `base` and its last five equal `Excel`, each once ASCII capitals are folded.
pub proof fn lemma_row_match(entry: Seq<char>, base: Seq<char>)
    ensures
        row_match(entry, base) <==> {
            &&& entry.len() == base.len() + 5
            &&& forall|k: int| 0 <= k < base.len() ==> fold(#[trigger] entry[k]) == fold(base[k])
            &&& forall|k: int|
                0 <= k < 5 ==> fold(#[trigger] entry[base.len() + k]) == fold(excel()[k])
        },
{
    if entry.len() == base.len() + 5 {
        let head = entry.take(base.len() as int);
        let tail = entry.skip(base.len() as int);
        assert forall|k: int| 0 <= k < base.len() implies head[k] == entry[k] by {}
        assert forall|k: int| 0 <= k < 5 implies tail[k] == entry[base.len() + k] by {}
    }
}

/// `res` is the first of `types` whose text satisfies `matches`, or `None`
/// when none does.
pub open spec fn first_of<'a>(
    types: Seq<&'a str>,
    matches: spec_fn(Seq<char>) -> bool,
    res: Option<&'a str>,
) -> bool {
    match res {
        Some(t) => exists|i: int|
            0 <= i < types.len() && t == types[i] && matches(types[i]@) && forall|j: int|
                0 <= j < i ==> !matches(#[trigger] types[j]@),
        None => forall|i: int| 0 <= i < types.len() ==> !matches(#[trigger] types[i]@),
    }
}

fn base_start(path: &[char]) -> (start: usize)
    ensures
        start == name_start(path@, path@.len()),
        start <= path@.len(),
{
    let mut start = path.len();
    while start > 0 && path[start - 1] != '/'
        invariant
            start <= path@.len(),
            name_start(path@, start as nat) == name_start(path@, path@.len()),
        decreases start,
    {
        start = start - 1;
    }
    start
}

/// Resolves a table file name (a path, possibly ending in `.bytes`) to the
/// first of the known table types that equals its stem without ASCII case.
pub fn resolve_table<'a>(types: &[&'a str], filename: &str) -> (res: Option<&'a str>)
    ensures
        first_of(types@, |t: Seq<char>| same_ignoring_case(t, table_stem(filename@)), res),
        res matches Some(t) ==> {
            &&& t@.len() == table_stem(filename@).len()
            &&& forall|k: int|
                0 <= k < t@.len() ==> fold(#[trigger] t@[k]) == fold(table_stem(filename@)[k])
        },
{
    let path = chars_of(filename);
    let start = base_start(path.as_slice());
    let name = &path.as_slice()[start..path.len()];
    assert(name@ == base_name(filename@));
    let suffix: [char; 6] = ['.', 'b', 'y', 't', 'e', 's'];
    assert(suffix@ == bytes_ext());
    let mut end = name.len();
    assert(name@.take(end as int) == name@);
    while ends_with_at(name, end, suffix.as_slice())
        invariant
            end <= name@.len(),
            suffix@ == bytes_ext(),
            trim_suffixes(name@.take(end as int), bytes_ext()) == trim_suffixes(name@, bytes_ext()),
        decreases end,
    {
        assert(name@.take(end as int).take(end - 6) == name@.take(end - 6));
        end = end - 6;
    }
    let stem = &name[0..end];
    assert(stem@ == table_stem(filename@));
    for i in 0..types.len()
        invariant
            stem@ == table_stem(filename@),
            forall|j: int|
                0 <= j < i ==> !same_ignoring_case(#[trigger] types@[j]@, table_stem(filename@)),
    {
        let entry = chars_of(types[i]);
        if eq_ignore_ascii_case(entry.as_slice(), stem) {
            assert(types@[i as int] == types[i as int]);
            assert(entry@ == types[i as int]@);
            return Some(types[i]);
        }
    }
    None
}

/// Resolves a table name to the first of the known row types that is the
/// name, less one trailing `DBSchema`, followed by `Excel`, without ASCII case.
pub fn resolve_row<'a>(types: &[&'a str], table_name: &str) -> (res: Option<&'a str>)
    ensures
        first_of(types@, |t: Seq<char>| row_match(t, row_base(table_name@)), res),
        res matches Some(t) ==> {
            let base = row_base(table_name@);
            &&& t@.len() == base.len() + 5
            &&& forall|k: int| 0 <= k < base.len() ==> fold(#[trigger] t@[k]) == fold(base[k])
            &&& forall|k: int|
                0 <= k < 5 ==> fold(#[trigger] t@[base.len() + k]) == fold(excel()[k])
        },
{
    let name = chars_of(table_name);
    let marker: [char; 8] = ['D', 'B', 'S', 'c', 'h', 'e', 'm', 'a'];
    assert(marker@ == db_schema());
    assert(name@.take(name@.len() as int) == name@);
    let end = if ends_with_at(name.as_slice(), name.len(), marker.as_slice()) {
        name.len() - 8
    } else {
        name.len()
    };
    let base = &name.as_slice()[0..end];
    assert(base@ == row_base(table_name@));
    let tail: [char; 5] = ['E', 'x', 'c', 'e', 'l'];
    assert(tail@ == excel());
    for i in 0..types.len()
        invariant
            base@ == row_base(table_name@),
            tail@ == excel(),
            forall|j: int| 0 <= j < i ==> !row_match(#[trigger] types@[j]@, row_base(table_name@)),
    {
        let entry = chars_of(types[i]);
        let found = entry.len() >= 5 && entry.len() - 5 == base.len() && eq_ignore_ascii_case_at(
            entry.as_slice(),
            0,
            base,
        ) && eq_ignore_ascii_case_at(entry.as_slice(), base.len(), tail.as_slice());
        proof {
            if entry@.len() == base@.len() + 5 {
                assert(entry@.subrange(0, base@.len() as int) == entry@.take(base@.len() as int));
                assert(entry@.subrange(base@.len() as int, base@.len() + 5int) == entry@.skip(
                    base@.len() as int,
                ));
            }
        }
        if found {
            assert(types@[i as int] == types[i as int]);
            assert(entry@ == types[i as int]@);
            proof {
                lemma_row_match(entry@, base@);
            }
            return Some(types[i]);
        }
    }
    None
}

/// The table that a file holds, or `UnknownTable` with the file name when
/// no known table type matches it.
pub fn table_for_file<'a>(types: &[&'a str], filename: &str) -> (res: Result<
    &'a str,
    FlatBufferError,
>)
    ensures
        match res {
            Ok(t) => first_of(
                types@,
                |t: Seq<char>| same_ignoring_case(t, table_stem(filename@)),
                Some(t),
            ),
            Err(e) => {
                &&& first_of(
                    types@,
                    |t: Seq<char>| same_ignoring_case(t, table_stem(filename@)),
                    None,
                )
                &&& e matches FlatBufferError::UnknownTable(name)
                &&& name@ == filename@
            },
        },
{
    match resolve_table(types, filename) {
        Some(t) => Ok(t),
        None => Err(FlatBufferError::UnknownTable(filename.to_owned())),
    }
}

/// The unfinished last line of `s`: what follows its last newline.
pub open spec fn partial(s: Seq<char>) -> Seq<char>
    decreases s.len(),
{
    if s.len() == 0 {
        s
    } else if s.last() == '\n' {
        Seq::empty()
    } else {
        partial(s.drop_last()).push(s.last())
    }
}

/// A line ended by `\r\n` loses its `\r`.
pub open spec fn strip_cr(line: Seq<char>) -> Seq<char> {
    if line.len() > 0 && line.last() == '\r' {
        line.drop_last()
    } else {
        line
    }
}

/// The lines of `s` that a newline ends, without their line endings.
pub open spec fn completed(s: Seq<char>) -> Seq<Seq<char>>
    decreases s.len(),
{
    if s.len() == 0 {
        Seq::empty()
    } else if s.last() == '\n' {
        completed(s.drop_last()).push(strip_cr(partial(s.drop_last())))
    } else {
        completed(s.drop_last())
    }
}

/// The lines of `s` as `str::lines` yields them: each line without its `\n`
/// or `\r\n` ending, and a last line only when text follows the last newline.
pub open spec fn lines(s: Seq<char>) -> Seq<Seq<char>> {
    if partial(s).len() > 0 {
        completed(s).push(partial(s))
    } else {
        completed(s)
    }
}

/// Each line indented by two spaces, the lines joined by newlines.
pub open spec fn rendered(lines: Seq<Seq<char>>) -> Seq<char>
    decreases lines.len(),
{
    if lines.len() == 0 {
        Seq::empty()
    } else {
        rendered(lines.drop_last()) + (if lines.len() > 1 {
            seq!['\n']
        } else {
            Seq::empty()
        }) + seq![' ', ' '] + lines.last()
    }
}

/// `json` with every line indented by two spaces.
pub open spec fn indented(json: Seq<char>) -> Seq<char> {
    rendered(lines(json))
}

/// Appends `json` to `out` with every line indented by two spaces.
pub fn indent(out: &mut String, json: &str)
    ensures
        final(out)@ == old(out)@ + indented(json@),
{
    let chars = chars_of(json);
    let ghost start = out@;
    let mut cur: Vec<char> = Vec::new();
    let mut count: usize = 0;
    for i in 0..chars.len()
        invariant
            chars@ == json@,
            cur@ == partial(chars@.take(i as int)),
            count == completed(chars@.take(i as int)).len(),
            count <= i,
            out@ == start + rendered(completed(chars@.take(i as int))),
    {
        let ghost before = chars@.take(i as int);
        let ghost after = chars@.take(i + 1);
        assert(after.drop_last() == before);
        let c = chars[i];
        if c == '\n' {
            let n = if cur.len() > 0 && cur[cur.len() - 1] == '\r' {
                cur.len() - 1
            } else {
                cur.len()
            };
            let line = &cur.as_slice()[0..n];
            assert(line@ == strip_cr(partial(before)));
            if count > 0 {
                push_char(out, '\n');
            }
            push_char(out, ' ');
            push_char(out, ' ');
            push_chars(out, line);
            let ghost ls = completed(after);
            assert(ls.drop_last() == completed(before));
            count = count + 1;
            cur = Vec::new();
            assert(cur@ =~= partial(after));
        } else {
            cur.push(c);
        }
    }
    assert(chars@.take(chars.len() as int) == chars@);
    if cur.len() > 0 {
        if count > 0 {
            push_char(out, '\n');
        }
        push_char(out, ' ');
        push_char(out, ' ');
        push_chars(out, cur.as_slice());
        assert(lines(json@).drop_last() == completed(json@));
    }
}

/// The rows after `[` and a newline: each row indented, rows separated by a
/// comma and a newline.
pub open spec fn rows_body(rows: Seq<Seq<char>>) -> Seq<char>
    decreases rows.len(),
{
    if rows.len() == 0 {
        Seq::empty()
    } else {
        rows_body(rows.drop_last()) + (if rows.len() > 1 {
            seq![',', '\n']
        } else {
            Seq::empty()
        }) + indented(rows.last())
    }
}

/// The JSON array of `rows`: `[]` when there are none, otherwise `[`, a
/// newline, the indented rows separated by `,` and a newline, a newline and `]`.
pub open spec fn rows_json(rows: Seq<Seq<char>>) -> Seq<char> {
    if rows.len() == 0 {
        seq!['[', ']']
    } else {
        seq!['[', '\n'] + rows_body(rows) + seq!['\n', ']']
    }
}

/// `parts` joined by `sep`: the parts in order with `sep` between each two.
pub open spec fn joined(parts: Seq<Seq<char>>, sep: Seq<char>) -> Seq<char>
    decreases parts.len(),
{
    if parts.len() == 0 {
        Seq::empty()
    } else if parts.len() == 1 {
        parts[0]
    } else {
        joined(parts.drop_last(), sep) + sep + parts.last()
    }
}

/// Each line of `json` behind two spaces.
pub open spec fn prefixed_lines(json: Seq<char>) -> Seq<Seq<char>> {
    lines(json).map_values(|l: Seq<char>| seq![' ', ' '] + l)
}

proof fn lemma_rendered_joined(ls: Seq<Seq<char>>)
    ensures
        rendered(ls) == joined(ls.map_values(|l: Seq<char>| seq![' ', ' '] + l), seq!['\n']),
    decreases ls.len(),
{
    let f = |l: Seq<char>| seq![' ', ' '] + l;
    if ls.len() > 0 {
        lemma_rendered_joined(ls.drop_last());
        assert(ls.drop_last().map_values(f) =~= ls.map_values(f).drop_last());
        if ls.len() == 1 {
            assert(rendered(ls.drop_last()) =~= Seq::<char>::empty());
            assert(rendered(ls) =~= ls.map_values(f)[0]);
        }
    }
}

proof fn lemma_rows_body_joined(rows: Seq<Seq<char>>)
    ensures
        rows_body(rows) == joined(rows.map_values(|r: Seq<char>| indented(r)), seq![',', '\n']),
    decreases rows.len(),
{
    let f = |r: Seq<char>| indented(r);
    if rows.len() > 0 {
        lemma_rows_body_joined(rows.drop_last());
        assert(rows.drop_last().map_values(f) =~= rows.map_values(f).drop_last());
        if rows.len() == 1 {
            assert(rows_body(rows.drop_last()) =~= Seq::<char>::empty());
            assert(rows_body(rows) =~= rows.map_values(f)[0]);
        }
    }
}

/// The JSON array of rows spelled out: `[]` for no rows; otherwise `[`, a
/// newline, the rows joined by `,` and a newline, each row being its lines
/// behind two spaces joined by newlines, then a newline and `]`.
pub proof fn lemma_rows_json_joined(rows: Seq<Seq<char>>)
    ensures
        rows_json(rows) == if rows.len() == 0 {
            seq!['[', ']']
        } else {
            seq!['[', '\n'] + joined(
                rows.map_values(|r: Seq<char>| joined(prefixed_lines(r), seq!['\n'])),
                seq![',', '\n'],
            ) + seq!['\n', ']']
        },
{
    lemma_rows_body_joined(rows);
    assert forall|i: int| 0 <= i < rows.len() implies indented(#[trigger] rows[i]) == joined(
        prefixed_lines(rows[i]),
        seq!['\n'],
    ) by {
        lemma_rendered_joined(lines(rows[i]));
    }
    assert(rows.map_values(|r: Seq<char>| indented(r)) =~= rows.map_values(
        |r: Seq<char>| joined(prefixed_lines(r), seq!['\n']),
    ));
}

/// Builds the JSON array of decoded rows one row at a time.
pub struct RowsWriter {
    out: String,
    empty: bool,
    rows: Ghost<Seq<Seq<char>>>,
}

impl RowsWriter {
    #[verifier::type_invariant]
    spec fn inv(self) -> bool {
        &&& self.out@ == seq!['[', '\n'] + rows_body(self.rows@)
        &&& self.empty == (self.rows@.len() == 0)
    }

    /// The rows added so far.
    pub closed spec fn rows(self) -> Seq<Seq<char>> {
        self.rows@
    }

    /// A writer with no rows yet.
    pub fn new() -> (w: Self)
        ensures
            w.rows() == Seq::<Seq<char>>::empty(),
    {
        let mut out = String::new();
        push_char(&mut out, '[');
        push_char(&mut out, '\n');
        assert(out@ =~= seq!['[', '\n'] + rows_body(Seq::<Seq<char>>::empty()));
        RowsWriter { out, empty: true, rows: Ghost(Seq::empty()) }
    }

    /// Adds one row given as the JSON bytes that decoding it produced; fails
    /// with `Utf8`, adding nothing, when the bytes are not UTF-8.
    pub fn push(&mut self, json: &[u8]) -> (res: Result<(), FlatBufferError>)
        ensures
            res is Ok <==> valid_utf8(json@),
            res is Ok ==> final(self).rows() == old(self).rows().push(decode_utf8(json@)),
            res matches Err(e) ==> e is Utf8 && final(self).rows() == old(self).rows(),
    {
        let text = match utf8_str(json) {
            Ok(text) => text,
            Err(e) => {
                return Err(FlatBufferError::Utf8(e));
            },
        };
        let mut taken = RowsWriter::new();
        std::mem::swap(self, &mut taken);
        proof {
            use_type_invariant(&taken);
        }
        let RowsWriter { mut out, empty, rows } = taken;
        let ghost next = rows@.push(text@);
        if !empty {
            push_char(&mut out, ',');
            push_char(&mut out, '\n');
        }
        indent(&mut out, text);
        assert(next.drop_last() =~= rows@);
        assert(out@ =~= seq!['[', '\n'] + rows_body(next));
        *self = RowsWriter { out, empty: false, rows: Ghost(next) };
        Ok(())
    }

    /// The JSON array of the rows added.
    pub fn finish(self) -> (json: String)
        ensures
            json@ == rows_json(self.rows()),
    {
        proof {
            use_type_invariant(&self);
        }
        if self.empty {
            let mut json = String::new();
            push_char(&mut json, '[');
            push_char(&mut json, ']');
            assert(json@ =~= seq!['[', ']']);
            return json;
        }
        let mut json = self.out;
        push_char(&mut json, '\n');
        push_char(&mut json, ']');
        assert(json@ =~= rows_json(self.rows@));
        json
    }
}

/// The JSON array of rows that decoding produced, in order; fails with
/// `Utf8` at the first row whose bytes are not UTF-8.
pub fn dump_rows(rows: &[Vec<u8>]) -> (res: Result<String, FlatBufferError>)
    ensures
        res is Ok <==> forall|i: int| 0 <= i < rows@.len() ==> valid_utf8(#[trigger] rows@[i]@),
        res matches Ok(json) ==> json@ == rows_json(
            Seq::new(rows@.len(), |i: int| decode_utf8(rows@[i]@)),
        ),
        res matches Err(e) ==> e is Utf8,
{
    let mut writer = RowsWriter::new();
    for i in 0..rows.len()
        invariant
            writer.rows() == Seq::new(i as nat, |k: int| decode_utf8(rows@[k]@)),
            forall|k: int| 0 <= k < i ==> valid_utf8(#[trigger] rows@[k]@),
    {
        writer.push(rows[i].as_slice())?;
        assert(writer.rows() =~= Seq::new((i + 1) as nat, |k: int| decode_utf8(rows@[k]@)));
    }
    Ok(writer.finish())
}

/// What handing the type `name` to the generated decoders came to: a decoder's
/// own result, or `UnknownTable` with the name when none knows the type.
pub fn dispatched(name: &str, outcome: Option<Result<(), FlatBufferError>>) -> (res: Result<
    (),
    FlatBufferError,
>)
    ensures
        match outcome {
            None => res matches Err(FlatBufferError::UnknownTable(found)) && found@ == name@,
            Some(decoded) => res == decoded,
        },
{
    match outcome {
        Some(decoded) => decoded,
        None => Err(FlatBufferError::UnknownTable(name.to_owned())),
    }
}

/// The text of a decoded table, or `Utf8` when its bytes are not UTF-8.
pub fn finish(buffer: Vec<u8>) -> (res: Result<String, FlatBufferError>)
    ensures
        res is Ok <==> valid_utf8(buffer@),
        res matches Ok(text) ==> text@ == decode_utf8(buffer@),
        res matches Err(e) ==> e is Utf8,
{
    match utf8_str(buffer.as_slice()) {
        Ok(text) => Ok(text.to_owned()),
        Err(e) => Err(FlatBufferError::Utf8(e)),
    }
}

/// The JSON text of one decoded row: what the row decoder for `row_type`
/// came to and, when it succeeded, the text of the JSON it wrote to `json`.
pub fn dump_row(row_type: &str, decoded: Option<Result<(), FlatBufferError>>, json: Vec<u8>) -> (res:
    Result<String, FlatBufferError>)
    ensures
        match decoded {
            None => res matches Err(FlatBufferError::UnknownTable(found)) && found@ == row_type@,
            Some(Err(e)) => res == Err::<String, FlatBufferError>(e),
            Some(Ok(())) => {
                &&& res is Ok <==> valid_utf8(json@)
                &&& res matches Ok(text) ==> text@ == decode_utf8(json@)
                &&& res matches Err(e) ==> e is Utf8
            },
        },
{
    dispatched(row_type, decoded)?;
    finish(json)
}

} // verus!
