use batg::flat_error::FlatBufferError;
use batg::sink::{
    check_code, check_sink, qualify, CellValue, Compound, Opened, Role, Scalar, SeqFrame, Step,
    StructFrame, SCALAR, TAG_BOOL, TAG_ENUM, TAG_F64, TAG_I16, TAG_NULL, TAG_STR, TAG_U64,
};

fn value(name: &str, index: i64) -> Role {
    Role::Value { name: name.to_owned(), index }
}

fn emitted(step: Result<Step, FlatBufferError>) -> (String, i64, u32, CellValue) {
    match step {
        Ok(Step::Emit(c)) => (c.name, c.index, c.tag, c.value),
        other => panic!("unexpected {other:?}"),
    }
}

#[test]
fn value_scalars_become_cells() {
    let role = value("Hp", SCALAR);
    let (name, index, tag, v) = emitted(role.scalar(Scalar::I16(-7)));
    assert_eq!((name.as_str(), index, tag), ("Hp", -1, TAG_I16));
    assert!(matches!(v, CellValue::Signed(-7)));
    let (_, _, tag, v) = emitted(role.scalar(Scalar::Bool(true)));
    assert_eq!(tag, TAG_BOOL);
    assert!(matches!(v, CellValue::Unsigned(1)));
    let (_, _, tag, v) = emitted(role.scalar(Scalar::U64(u64::MAX)));
    assert_eq!(tag, TAG_U64);
    assert!(matches!(v, CellValue::Unsigned(u64::MAX)));
    let (_, _, tag, v) = emitted(role.scalar(Scalar::F64));
    assert_eq!(tag, TAG_F64);
    assert!(matches!(v, CellValue::Real));
    let (_, _, tag, v) = emitted(role.scalar(Scalar::Char('é')));
    assert_eq!(tag, TAG_STR);
    assert!(matches!(v, CellValue::Text(t) if t == "é"));
    let (_, _, tag, v) = emitted(role.scalar(Scalar::UnitVariant("Red")));
    assert_eq!(tag, TAG_ENUM);
    assert!(matches!(v, CellValue::Text(t) if t == "Red"));
    let (_, _, tag, v) = emitted(role.scalar(Scalar::Absent));
    assert_eq!(tag, TAG_NULL);
    assert!(matches!(v, CellValue::Empty));
}

#[test]
fn value_forwards_options_and_opens_bytes() {
    let role = value("Blob", 3);
    assert!(matches!(role.scalar(Scalar::Present), Ok(Step::Forward)));
    assert!(matches!(role.scalar(Scalar::NewtypeVariant), Ok(Step::Forward)));
    match role.scalar(Scalar::Bytes) {
        Ok(Step::Open(SeqFrame::Items { name, index })) => {
            assert_eq!(name, "Blob");
            assert_eq!(index, 0);
        }
        other => panic!("unexpected {other:?}"),
    }
}

#[test]
fn other_roles_reject_scalars() {
    assert!(matches!(Role::Table.scalar(Scalar::Bool(true)), Err(FlatBufferError::Unsupported("serialize_bool"))));
    assert!(matches!(Role::Row.scalar(Scalar::Absent), Err(FlatBufferError::Unsupported("none"))));
    assert!(matches!(Role::List.scalar(Scalar::Present), Err(FlatBufferError::Unsupported("some"))));
    assert!(matches!(Role::List.scalar(Scalar::UnitStruct), Err(FlatBufferError::Unsupported("serialize_unit_struct"))));
}

#[test]
fn compounds_open_by_role() {
    assert!(matches!(Role::Table.open(Compound::Struct), Ok(Opened::Struct(StructFrame::Wrapper))));
    assert!(matches!(Role::Table.open(Compound::Sequence), Err(FlatBufferError::Unsupported("root sequence"))));
    assert!(matches!(Role::List.open(Compound::Tuple), Ok(Opened::Sequence(SeqFrame::Elements))));
    assert!(matches!(Role::List.open(Compound::Struct), Err(FlatBufferError::Unsupported("data list shape"))));
    assert!(matches!(Role::Row.open(Compound::Struct), Ok(Opened::Struct(StructFrame::Fields { prefix: None }))));
    assert!(matches!(Role::Row.open(Compound::Sequence), Err(FlatBufferError::Unsupported("row sequence"))));
    assert!(matches!(value("v", 1).open(Compound::Mapping), Err(FlatBufferError::Unsupported("map"))));
    assert!(matches!(Role::Row.open(Compound::TupleVariant), Err(FlatBufferError::Unsupported("tuple variant"))));
    match value("Pos", 2).open(Compound::Struct) {
        Ok(Opened::Struct(StructFrame::Fields { prefix: Some(p) })) => assert_eq!(p, "Pos"),
        other => panic!("unexpected {other:?}"),
    }
}

#[test]
fn fields_are_qualified_by_prefix() {
    assert_eq!(qualify(None, "Id"), "Id");
    assert_eq!(qualify(Some("Pos"), "X"), "Pos.X");
    let nested = StructFrame::Fields { prefix: Some("Pos".to_owned()) };
    match nested.field("X") {
        Role::Value { name, index } => {
            assert_eq!(name, "Pos.X");
            assert_eq!(index, SCALAR);
        }
        other => panic!("unexpected {other:?}"),
    }
    assert!(matches!(StructFrame::Wrapper.field("DataList"), Role::List));
    let skipped = nested.skip_field("Y").unwrap();
    assert_eq!((skipped.name.as_str(), skipped.index, skipped.tag), ("Pos.Y", SCALAR, TAG_NULL));
    assert!(StructFrame::Wrapper.skip_field("Y").is_none());
}

#[test]
fn items_are_numbered_and_empty_sequences_emit_null() {
    let mut items = SeqFrame::Items { name: "Tags".to_owned(), index: 0 };
    let empty = items.finish().unwrap();
    assert_eq!((empty.name.as_str(), empty.index, empty.tag), ("Tags", 0, TAG_NULL));
    for expected in 0..3 {
        let plan = items.element();
        assert!(!plan.row);
        assert!(matches!(plan.role, Role::Value { index, .. } if index == expected));
        items.advance();
    }
    assert!(items.finish().is_none());
    let rows = SeqFrame::Elements;
    let plan = rows.element();
    assert!(plan.row);
    assert!(matches!(plan.role, Role::Row));
    assert!(rows.finish().is_none());
}

#[test]
fn sink_header_checks_in_order() {
    assert!(matches!(check_sink(false, 9, 9, 48, false, false, false), Err(FlatBufferError::SinkHook("sink"))));
    assert!(matches!(check_sink(true, 2, 9, 48, true, true, true), Err(FlatBufferError::SinkVersion(2))));
    assert!(matches!(check_sink(true, 1, 9, 48, true, true, true), Err(FlatBufferError::SinkSize(9))));
    assert!(matches!(check_sink(true, 1, 48, 48, false, false, true), Err(FlatBufferError::SinkHook("begin_row"))));
    assert!(matches!(check_sink(true, 1, 48, 48, true, false, false), Err(FlatBufferError::SinkHook("field"))));
    assert!(matches!(check_sink(true, 1, 48, 48, true, true, false), Err(FlatBufferError::SinkHook("end_row"))));
    assert!(check_sink(true, 1, 48, 48, true, true, true).is_ok());
}

#[test]
fn callback_codes() {
    assert!(check_code("field", 0).is_ok());
    assert!(matches!(check_code("end_row", -3), Err(FlatBufferError::SinkFailed("end_row", -3))));
}
