//! How the rows of a decoded table are fed to a row sink: which serializer
//! accepts which part of the serde data model, what cell each scalar becomes,
//! and how fields are named and sequence items numbered.

use crate::flat_error::FlatBufferError;
use crate::text::push_char;
use vstd::prelude::*;

verus! {

pub const SINK_VERSION: u32 = 1;

pub const TAG_NULL: u32 = 0;

pub const TAG_BOOL: u32 = 1;

pub const TAG_I8: u32 = 2;

pub const TAG_I16: u32 = 3;

pub const TAG_I32: u32 = 4;

pub const TAG_I64: u32 = 5;

pub const TAG_U8: u32 = 6;

pub const TAG_U16: u32 = 7;

pub const TAG_U32: u32 = 8;

pub const TAG_U64: u32 = 9;

pub const TAG_F32: u32 = 10;

pub const TAG_F64: u32 = 11;

pub const TAG_STR: u32 = 12;

pub const TAG_ENUM: u32 = 13;

/// The index of a cell that is not an item of a sequence.
pub const SCALAR: i64 = -1;

/// What a cell carries besides its name, index and tag. A floating-point
/// value is carried by the caller; the plan only says that there is one.
#[derive(Debug)]
pub enum CellValue {
    Empty,
    Signed(i64),
    Unsigned(u64),
    Real,
    Text(String),
}

/// The plain content of a [`CellValue`].
pub enum Payload {
    Empty,
    Signed(i64),
    Unsigned(u64),
    Real,
    Text(Seq<char>),
}

impl View for CellValue {
    type V = Payload;

    open spec fn view(&self) -> Payload {
        match self {
            CellValue::Empty => Payload::Empty,
            CellValue::Signed(v) => Payload::Signed(*v),
            CellValue::Unsigned(v) => Payload::Unsigned(*v),
            CellValue::Real => Payload::Real,
            CellValue::Text(t) => Payload::Text(t@),
        }
    }
}

/// A cell to hand to the sink's field callback.
#[derive(Debug)]
pub struct CellPlan {
    pub name: String,
    pub index: i64,
    pub tag: u32,
    pub value: CellValue,
}

/// The plain content of a [`CellPlan`].
pub struct CellModel {
    pub name: Seq<char>,
    pub index: i64,
    pub tag: u32,
    pub value: Payload,
}

impl View for CellPlan {
    type V = CellModel;

    open spec fn view(&self) -> CellModel {
        CellModel { name: self.name@, index: self.index, tag: self.tag, value: self.value@ }
    }
}

/// The serializer that a value is handed to: the table root, the list of
/// rows in a table, a row, or a field value with its name and item index.
#[derive(Debug)]
pub enum Role {
    Table,
    List,
    Row,
    Value { name: String, index: i64 },
}

/// A non-compound value of the serde data model.
pub enum Scalar<'a> {
    Bool(bool),
    I8(i8),
    I16(i16),
    I32(i32),
    I64(i64),
    U8(u8),
    U16(u16),
    U32(u32),
    U64(u64),
    F32,
    F64,
    Char(char),
    Str(&'a str),
    Bytes,
    Absent,
    Unit,
    UnitStruct,
    UnitVariant(&'a str),
    Present,
    NewtypeStruct,
    NewtypeVariant,
}

/// A compound value of the serde data model.
pub enum Compound {
    Sequence,
    Tuple,
    Struct,
    TupleStruct,
    TupleVariant,
    Mapping,
    StructVariant,
}

/// An open struct: the fields of the table root, or the fields of a row or
/// of a nested struct, named after `prefix` when there is one.
#[derive(Debug)]
pub enum StructFrame {
    Wrapper,
    Fields { prefix: Option<String> },
}

/// An open sequence: the rows of a table, or the items of a field value.
#[derive(Debug)]
pub enum SeqFrame {
    Elements,
    Items { name: String, index: i64 },
}

/// What opening a compound value gives.
#[derive(Debug)]
pub enum Opened {
    Struct(StructFrame),
    Sequence(SeqFrame),
}

/// What handing a scalar to a field value asks for: a cell to emit, the
/// inner value handed to the same serializer, or the bytes handed item by
/// item to a sequence.
#[derive(Debug)]
pub enum Step {
    Emit(CellPlan),
    Forward,
    Open(SeqFrame),
}

/// What an element of an open sequence is handed to, and whether it is a
/// row, bracketed by the sink's row callbacks.
#[derive(Debug)]
pub struct ElementPlan {
    pub role: Role,
    pub row: bool,
}

/// The label that a serializer other than a field value rejects `value` with.
pub open spec fn scalar_label(value: Scalar) -> &'static str {
    match value {
        Scalar::Bool(_) => "serialize_bool",
        Scalar::I8(_) => "serialize_i8",
        Scalar::I16(_) => "serialize_i16",
        Scalar::I32(_) => "serialize_i32",
        Scalar::I64(_) => "serialize_i64",
        Scalar::U8(_) => "serialize_u8",
        Scalar::U16(_) => "serialize_u16",
        Scalar::U32(_) => "serialize_u32",
        Scalar::U64(_) => "serialize_u64",
        Scalar::F32 => "serialize_f32",
        Scalar::F64 => "serialize_f64",
        Scalar::Char(_) => "serialize_char",
        Scalar::Str(_) => "serialize_str",
        Scalar::Bytes => "serialize_bytes",
        Scalar::UnitStruct => "serialize_unit_struct",
        Scalar::Absent => "none",
        Scalar::Unit => "unit",
        Scalar::Present => "some",
        Scalar::UnitVariant(_) => "unit variant",
        Scalar::NewtypeStruct => "newtype struct",
        Scalar::NewtypeVariant => "newtype variant",
    }
}

/// The tag and payload of the cell that a field value emits for `value`, or
/// `None` when `value` is not emitted as one cell.
pub open spec fn scalar_cell(value: Scalar) -> Option<(u32, Payload)> {
    match value {
        Scalar::Bool(v) => Some((TAG_BOOL, Payload::Unsigned(if v { 1u64 } else { 0u64 }))),
        Scalar::I8(v) => Some((TAG_I8, Payload::Signed(v as i64))),
        Scalar::I16(v) => Some((TAG_I16, Payload::Signed(v as i64))),
        Scalar::I32(v) => Some((TAG_I32, Payload::Signed(v as i64))),
        Scalar::I64(v) => Some((TAG_I64, Payload::Signed(v))),
        Scalar::U8(v) => Some((TAG_U8, Payload::Unsigned(v as u64))),
        Scalar::U16(v) => Some((TAG_U16, Payload::Unsigned(v as u64))),
        Scalar::U32(v) => Some((TAG_U32, Payload::Unsigned(v as u64))),
        Scalar::U64(v) => Some((TAG_U64, Payload::Unsigned(v))),
        Scalar::F32 => Some((TAG_F32, Payload::Real)),
        Scalar::F64 => Some((TAG_F64, Payload::Real)),
        Scalar::Char(c) => Some((TAG_STR, Payload::Text(seq![c]))),
        Scalar::Str(s) => Some((TAG_STR, Payload::Text(s@))),
        Scalar::UnitVariant(v) => Some((TAG_ENUM, Payload::Text(v@))),
        Scalar::Absent | Scalar::Unit | Scalar::UnitStruct => Some((TAG_NULL, Payload::Empty)),
        _ => None,
    }
}

/// What a field value's cell carries is the value itself: a bool as 1 for
/// true and 0 for false, a signed integer as the same number in an `i64`, an
/// unsigned one as the same number in a `u64`, a character, text or enum
/// variant name as that text, and every kind of absence as a null cell.
pub proof fn lemma_scalar_cell_values(value: Scalar)
    ensures
        value matches Scalar::Bool(b) ==> scalar_cell(value) matches Some((t, Payload::Unsigned(u)))
            && t == TAG_BOOL && (u == 1 <==> b) && (u == 0 <==> !b),
        value matches Scalar::I8(v) ==> scalar_cell(value) matches Some((t, Payload::Signed(s)))
            && t == TAG_I8 && s == v,
        value matches Scalar::I16(v) ==> scalar_cell(value) matches Some((t, Payload::Signed(s)))
            && t == TAG_I16 && s == v,
        value matches Scalar::I32(v) ==> scalar_cell(value) matches Some((t, Payload::Signed(s)))
            && t == TAG_I32 && s == v,
        value matches Scalar::I64(v) ==> scalar_cell(value) matches Some((t, Payload::Signed(s)))
            && t == TAG_I64 && s == v,
        value matches Scalar::U8(v) ==> scalar_cell(value) matches Some((t, Payload::Unsigned(u)))
            && t == TAG_U8 && u == v,
        value matches Scalar::U16(v) ==> scalar_cell(value) matches Some(
            (t, Payload::Unsigned(u)),
        ) && t == TAG_U16 && u == v,
        value matches Scalar::U32(v) ==> scalar_cell(value) matches Some(
            (t, Payload::Unsigned(u)),
        ) && t == TAG_U32 && u == v,
        value matches Scalar::U64(v) ==> scalar_cell(value) matches Some(
            (t, Payload::Unsigned(u)),
        ) && t == TAG_U64 && u == v,
        value matches Scalar::Char(c) ==> scalar_cell(value) matches Some((t, Payload::Text(x)))
            && t == TAG_STR && x.len() == 1 && x[0] == c,
        value matches Scalar::Str(s) ==> scalar_cell(value) matches Some((t, Payload::Text(x)))
            && t == TAG_STR && x == s@,
        value matches Scalar::UnitVariant(v) ==> scalar_cell(value) matches Some(
            (t, Payload::Text(x)),
        ) && t == TAG_ENUM && x == v@,
        (value is Absent || value is Unit || value is UnitStruct) ==> scalar_cell(value) == Some(
            (TAG_NULL, Payload::Empty),
        ),
{
}

/// The label that every serializer rejects a compound of `kind` with, when
/// it does not accept it.
pub open spec fn compound_label(role: &Role, kind: Compound) -> &'static str {
    match kind {
        Compound::TupleStruct => "tuple struct",
        Compound::TupleVariant => "tuple variant",
        Compound::Mapping => "map",
        Compound::StructVariant => "struct variant",
        Compound::Struct => "data list shape",
        _ => match role {
            Role::Table => "root sequence",
            _ => "row sequence",
        },
    }
}

/// The name of a field `key` in a struct named after `prefix`.
pub open spec fn qualified(prefix: Option<Seq<char>>, key: Seq<char>) -> Seq<char> {
    match prefix {
        None => key,
        Some(p) => p + seq!['.'] + key,
    }
}

pub open spec fn prefix_view(prefix: Option<String>) -> Option<Seq<char>> {
    match prefix {
        None => None,
        Some(p) => Some(p@),
    }
}

/// A text value holding one character.
fn char_text(c: char) -> (s: String)
    ensures
        s@ == seq![c],
{
    let mut s = String::new();
    push_char(&mut s, c);
    assert(s@ =~= seq![c]);
    s
}

/// The name of field `key` in a struct named after `prefix`.
pub fn qualify(prefix: Option<&str>, key: &str) -> (name: String)
    ensures
        name@ == qualified(
            match prefix {
                None => None,
                Some(p) => Some(p@),
            },
            key@,
        ),
{
    match prefix {
        None => key.to_owned(),
        Some(p) => {
            let mut name = p.to_owned();
            push_char(&mut name, '.');
            name.append(key);
            name
        },
    }
}

impl Role {
    /// Hands a scalar to this serializer.
    ///
    /// A field value emits a cell named after it, at its index, for every
    /// scalar that [`scalar_cell`] maps, forwards the inner value of an option
    /// or newtype, and opens a sequence of its items for bytes. Every other
    /// serializer rejects every scalar with [`scalar_label`].
    pub fn scalar(&self, value: Scalar) -> (res: Result<Step, FlatBufferError>)
        ensures
            match self {
                Role::Value { name, index } => match value {
                    Scalar::Bytes => res matches Ok(Step::Open(SeqFrame::Items { name: n, index: i }))
                        && n@ == name@ && i == 0,
                    Scalar::Present | Scalar::NewtypeStruct | Scalar::NewtypeVariant => res matches Ok(
                        Step::Forward,
                    ),
                    _ => res matches Ok(Step::Emit(cell)) && cell@ == CellModel {
                        name: name@,
                        index: *index,
                        tag: scalar_cell(value)->Some_0.0,
                        value: scalar_cell(value)->Some_0.1,
                    },
                },
                _ => res matches Err(FlatBufferError::Unsupported(label)) && label
                    == scalar_label(value),
            },
            match (self, value) {
                (Role::Value { .. }, Scalar::Bool(b)) => res matches Ok(Step::Emit(cell))
                    && cell.tag == TAG_BOOL && (cell.value matches CellValue::Unsigned(u) && (u == 1
                    <==> b) && (u == 0 <==> !b)),
                _ => true,
            },
    {
        let (name, index) = match self {
            Role::Value { name, index } => (name, *index),
            _ => {
                let label = match value {
                    Scalar::Bool(_) => "serialize_bool",
                    Scalar::I8(_) => "serialize_i8",
                    Scalar::I16(_) => "serialize_i16",
                    Scalar::I32(_) => "serialize_i32",
                    Scalar::I64(_) => "serialize_i64",
                    Scalar::U8(_) => "serialize_u8",
                    Scalar::U16(_) => "serialize_u16",
                    Scalar::U32(_) => "serialize_u32",
                    Scalar::U64(_) => "serialize_u64",
                    Scalar::F32 => "serialize_f32",
                    Scalar::F64 => "serialize_f64",
                    Scalar::Char(_) => "serialize_char",
                    Scalar::Str(_) => "serialize_str",
                    Scalar::Bytes => "serialize_bytes",
                    Scalar::UnitStruct => "serialize_unit_struct",
                    Scalar::Absent => "none",
                    Scalar::Unit => "unit",
                    Scalar::Present => "some",
                    Scalar::UnitVariant(_) => "unit variant",
                    Scalar::NewtypeStruct => "newtype struct",
                    Scalar::NewtypeVariant => "newtype variant",
                };
                return Err(FlatBufferError::Unsupported(label));
            },
        };
        let (tag, payload) = match value {
            Scalar::Bool(v) => (TAG_BOOL, CellValue::Unsigned(if v { 1 } else { 0 })),
            Scalar::I8(v) => (TAG_I8, CellValue::Signed(v as i64)),
            Scalar::I16(v) => (TAG_I16, CellValue::Signed(v as i64)),
            Scalar::I32(v) => (TAG_I32, CellValue::Signed(v as i64)),
            Scalar::I64(v) => (TAG_I64, CellValue::Signed(v)),
            Scalar::U8(v) => (TAG_U8, CellValue::Unsigned(v as u64)),
            Scalar::U16(v) => (TAG_U16, CellValue::Unsigned(v as u64)),
            Scalar::U32(v) => (TAG_U32, CellValue::Unsigned(v as u64)),
            Scalar::U64(v) => (TAG_U64, CellValue::Unsigned(v)),
            Scalar::F32 => (TAG_F32, CellValue::Real),
            Scalar::F64 => (TAG_F64, CellValue::Real),
            Scalar::Char(c) => (TAG_STR, CellValue::Text(char_text(c))),
            Scalar::Str(s) => (TAG_STR, CellValue::Text(s.to_owned())),
            Scalar::UnitVariant(v) => (TAG_ENUM, CellValue::Text(v.to_owned())),
            Scalar::Absent | Scalar::Unit | Scalar::UnitStruct => (TAG_NULL, CellValue::Empty),
            Scalar::Bytes => {
                return Ok(Step::Open(SeqFrame::Items { name: name.clone(), index: 0 }));
            },
            Scalar::Present | Scalar::NewtypeStruct | Scalar::NewtypeVariant => {
                return Ok(Step::Forward);
            },
        };
        Ok(Step::Emit(CellPlan { name: name.clone(), index, tag, value: payload }))
    }

    /// Opens a compound value in this serializer.
    ///
    /// The table root accepts a struct (its fields are lists of rows), a list
    /// accepts a sequence or tuple of rows, a row accepts a struct of fields,
    /// and a field value accepts a sequence or tuple (its items, numbered from
    /// 0) and a struct (its fields, named after the value). Everything else is
    /// rejected with [`compound_label`].
    pub fn open(&self, kind: Compound) -> (res: Result<Opened, FlatBufferError>)
        ensures
            match (self, kind) {
                (Role::Table, Compound::Struct) => res matches Ok(Opened::Struct(StructFrame::Wrapper)),
                (Role::List, Compound::Sequence) | (Role::List, Compound::Tuple) => res matches Ok(
                    Opened::Sequence(SeqFrame::Elements),
                ),
                (Role::Row, Compound::Struct) => res matches Ok(
                    Opened::Struct(StructFrame::Fields { prefix: None }),
                ),
                (Role::Value { name, index }, Compound::Sequence) | (
                    Role::Value { name, index },
                    Compound::Tuple,
                ) => res matches Ok(Opened::Sequence(SeqFrame::Items { name: n, index: i })) && n@
                    == name@ && i == 0,
                (Role::Value { name, index }, Compound::Struct) => res matches Ok(
                    Opened::Struct(StructFrame::Fields { prefix: Some(p) }),
                ) && p@ == name@,
                _ => res matches Err(FlatBufferError::Unsupported(label)) && label
                    == compound_label(self, kind),
            },
    {
        let label = match kind {
            Compound::TupleStruct => "tuple struct",
            Compound::TupleVariant => "tuple variant",
            Compound::Mapping => "map",
            Compound::StructVariant => "struct variant",
            Compound::Struct => match self {
                Role::Table => {
                    return Ok(Opened::Struct(StructFrame::Wrapper));
                },
                Role::Row => {
                    return Ok(Opened::Struct(StructFrame::Fields { prefix: None }));
                },
                Role::Value { name, index: _ } => {
                    return Ok(Opened::Struct(StructFrame::Fields { prefix: Some(name.clone()) }));
                },
                Role::List => "data list shape",
            },
            Compound::Sequence | Compound::Tuple => match self {
                Role::List => {
                    return Ok(Opened::Sequence(SeqFrame::Elements));
                },
                Role::Value { name, index: _ } => {
                    return Ok(Opened::Sequence(SeqFrame::Items { name: name.clone(), index: 0 }));
                },
                Role::Table => "root sequence",
                Role::Row => "row sequence",
            },
        };
        Err(FlatBufferError::Unsupported(label))
    }
}

impl StructFrame {
    /// What the value of field `key` is handed to: a list of rows for a field
    /// of the table root, otherwise a field value named after the struct and
    /// the key, not an item of a sequence.
    pub fn field(&self, key: &str) -> (role: Role)
        ensures
            match self {
                StructFrame::Wrapper => role is List,
                StructFrame::Fields { prefix } => role matches Role::Value { name, index } && name@
                    == qualified(prefix_view(*prefix), key@) && index == SCALAR,
            },
    {
        match self {
            StructFrame::Wrapper => Role::List,
            StructFrame::Fields { prefix } => {
                let name = match prefix {
                    None => qualify(None, key),
                    Some(p) => qualify(Some(p.as_str()), key),
                };
                Role::Value { name, index: SCALAR }
            },
        }
    }

    /// The cell that skipping field `key` emits: a null cell with the field's
    /// name in a row or nested struct, nothing in the table root.
    pub fn skip_field(&self, key: &str) -> (cell: Option<CellPlan>)
        ensures
            match self {
                StructFrame::Wrapper => cell is None,
                StructFrame::Fields { prefix } => cell matches Some(c) && c@ == CellModel {
                    name: qualified(prefix_view(*prefix), key@),
                    index: SCALAR,
                    tag: TAG_NULL,
                    value: Payload::Empty,
                },
            },
    {
        match self {
            StructFrame::Wrapper => None,
            StructFrame::Fields { prefix } => {
                let name = match prefix {
                    None => qualify(None, key),
                    Some(p) => qualify(Some(p.as_str()), key),
                };
                Some(CellPlan { name, index: SCALAR, tag: TAG_NULL, value: CellValue::Empty })
            },
        }
    }
}

impl SeqFrame {
    /// What the next element is handed to: a row, bracketed by the row
    /// callbacks, in a list of rows; a field value with the sequence's name
    /// and the element's index among items.
    pub fn element(&self) -> (plan: ElementPlan)
        ensures
            match self {
                SeqFrame::Elements => plan.role is Row && plan.row,
                SeqFrame::Items { name, index } => plan.role matches Role::Value { name: n, index: i }
                    && n@ == name@ && i == *index && !plan.row,
            },
    {
        match self {
            SeqFrame::Elements => ElementPlan { role: Role::Row, row: true },
            SeqFrame::Items { name, index } => ElementPlan {
                role: Role::Value { name: name.clone(), index: *index },
                row: false,
            },
        }
    }

    /// Moves past an element that was handed over successfully.
    pub fn advance(&mut self)
        requires
            *old(self) matches SeqFrame::Items { index, .. } ==> index < i64::MAX,
        ensures
            match *old(self) {
                SeqFrame::Elements => *final(self) is Elements,
                SeqFrame::Items { name, index } => *final(self) matches SeqFrame::Items {
                    name: n,
                    index: i,
                } && n@ == name@ && i == index + 1,
            },
    {
        match self {
            SeqFrame::Elements => {},
            SeqFrame::Items { name: _, index } => {
                *index = *index + 1;
            },
        }
    }

    /// The cell that closing the sequence emits: a null cell at index 0 for a
    /// sequence of items that had none, nothing otherwise.
    pub fn finish(&self) -> (cell: Option<CellPlan>)
        ensures
            match self {
                SeqFrame::Items { name, index } => if *index == 0 {
                    cell matches Some(c) && c@ == CellModel {
                        name: name@,
                        index: 0,
                        tag: TAG_NULL,
                        value: Payload::Empty,
                    }
                } else {
                    cell is None
                },
                SeqFrame::Elements => cell is None,
            },
    {
        match self {
            SeqFrame::Items { name, index } => {
                if *index == 0 {
                    Some(CellPlan { name: name.clone(), index: 0, tag: TAG_NULL, value: CellValue::Empty })
                } else {
                    None
                }
            },
            SeqFrame::Elements => None,
        }
    }
}

/// Checks a sink's header and hooks, in this order: that there is a sink,
/// its version, its size against `expected_size`, and the three callbacks.
pub fn check_sink(
    present: bool,
    version: u32,
    size: u32,
    expected_size: u32,
    has_begin_row: bool,
    has_field: bool,
    has_end_row: bool,
) -> (res: Result<(), FlatBufferError>)
    ensures
        if !present {
            res matches Err(FlatBufferError::SinkHook(h)) && h == "sink"
        } else if version != SINK_VERSION {
            res matches Err(FlatBufferError::SinkVersion(v)) && v == version
        } else if size != expected_size {
            res matches Err(FlatBufferError::SinkSize(s)) && s == size
        } else if !has_begin_row {
            res matches Err(FlatBufferError::SinkHook(h)) && h == "begin_row"
        } else if !has_field {
            res matches Err(FlatBufferError::SinkHook(h)) && h == "field"
        } else if !has_end_row {
            res matches Err(FlatBufferError::SinkHook(h)) && h == "end_row"
        } else {
            res is Ok
        },
{
    if !present {
        return Err(FlatBufferError::SinkHook("sink"));
    }
    if version != SINK_VERSION {
        return Err(FlatBufferError::SinkVersion(version));
    }
    if size != expected_size {
        return Err(FlatBufferError::SinkSize(size));
    }
    if !has_begin_row {
        return Err(FlatBufferError::SinkHook("begin_row"));
    }
    if !has_field {
        return Err(FlatBufferError::SinkHook("field"));
    }
    if !has_end_row {
        return Err(FlatBufferError::SinkHook("end_row"));
    }
    Ok(())
}

/// A callback's return code: 0 accepts, anything else is `SinkFailed` with
/// the callback's label and the code.
pub fn check_code(label: &'static str, code: i32) -> (res: Result<(), FlatBufferError>)
    ensures
        code == 0 ==> res is Ok,
        code != 0 ==> (res matches Err(FlatBufferError::SinkFailed(l, c)) && l == label && c
            == code),
{
    if code == 0 {
        Ok(())
    } else {
        Err(FlatBufferError::SinkFailed(label, code))
    }
}

} // verus!
