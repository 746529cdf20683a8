use record_assembly::bind::bind;
use record_assembly::column::{ColumnData, ColumnReaderRegistry, RegisteredColumn, ScalarValue};
use record_assembly::compose::compose;
use record_assembly::declare::{FieldDescriptor, RecordType, ValueType};
use record_assembly::errors::ReadError;
use record_assembly::reader::{CompositeRecordReader, Value};
use record_assembly::schema::{LeafType, NodeKind, PhysicalNode, Repetition};

fn mk_leaf(name: &str, t: LeafType) -> PhysicalNode {
    PhysicalNode {
        name: name.to_string(),
        repetition: Repetition::Required,
        is_root: false,
        kind: NodeKind::Leaf(t),
    }
}

fn mk_group(name: &str, children: Vec<PhysicalNode>) -> PhysicalNode {
    PhysicalNode {
        name: name.to_string(),
        repetition: Repetition::Required,
        is_root: false,
        kind: NodeKind::Group(children),
    }
}

fn mk_field(name: &str, vt: ValueType) -> FieldDescriptor {
    FieldDescriptor {
        name: name.to_string(),
        external_name: name.to_string(),
        value_type: vt,
    }
}

fn flat_column(values: Vec<ScalarValue>) -> ColumnData {
    let n = values.len();
    ColumnData {
        values,
        def_levels: vec![0; n],
        rep_levels: vec![0; n],
    }
}

fn registered(path: Vec<&str>, column: ColumnData) -> RegisteredColumn {
    RegisteredColumn {
        path: path.into_iter().map(|s| s.to_string()).collect(),
        column,
    }
}

fn point_reader() -> CompositeRecordReader {
    let schema = mk_group(
        "Point",
        vec![mk_leaf("id", LeafType::Int64), mk_leaf("name", LeafType::Utf8)],
    );
    let rt = RecordType {
        name: "PointRecord".to_string(),
        fields: vec![mk_field("id", ValueType::Int64), mk_field("name", ValueType::Utf8)],
    };
    let (_, desc) = bind(&rt, &schema).unwrap();
    let registry = ColumnReaderRegistry {
        columns: vec![
            registered(
                vec!["id"],
                flat_column(vec![
                    ScalarValue::Int64(1),
                    ScalarValue::Int64(2),
                    ScalarValue::Int64(3),
                ]),
            ),
            registered(
                vec!["name"],
                flat_column(vec![
                    ScalarValue::Utf8("a".to_string()),
                    ScalarValue::Utf8("b".to_string()),
                    ScalarValue::Utf8("c".to_string()),
                ]),
            ),
        ],
    };
    let mut path: Vec<String> = Vec::new();
    compose(&desc, &mut path, 0, 0, &registry, 64)
}

fn record_fields(v: &Value) -> &Vec<record_assembly::reader::FieldValue> {
    match v {
        Value::Record(fs) => fs,
        _ => panic!("expected a record value"),
    }
}

fn as_i64(v: &Value) -> i64 {
    match v {
        Value::Int64(x) => *x,
        _ => panic!("expected an int64 value"),
    }
}

fn as_utf8(v: &Value) -> &str {
    match v {
        Value::Utf8(s) => s,
        _ => panic!("expected a string value"),
    }
}

#[test]
fn three_rows_round_trip_then_exhaustion() {
    let mut reader = point_reader();
    let expected = [(1i64, "a"), (2i64, "b"), (3i64, "c")];
    for (id, name) in expected {
        assert!(reader.has_next());
        let rec = reader.read().unwrap();
        let fs = record_fields(&rec);
        assert_eq!(fs.len(), 2);
        assert_eq!(fs[0].name, "id");
        assert_eq!(as_i64(&fs[0].value), id);
        assert_eq!(fs[1].name, "name");
        assert_eq!(as_utf8(&fs[1].value), name);
        reader.advance_columns().unwrap();
    }
    assert!(!reader.has_next());
    assert!(matches!(reader.read(), Err(ReadError::EndOfColumn)));
    assert!(matches!(reader.advance_columns(), Err(ReadError::EndOfColumn)));
}

#[test]
fn read_all_yields_every_record_in_order() {
    let mut reader = point_reader();
    let records = reader.read_all().unwrap();
    assert_eq!(records.len(), 3);
    let ids: Vec<i64> = records.iter().map(|r| as_i64(&record_fields(r)[0].value)).collect();
    assert_eq!(ids, vec![1, 2, 3]);
    let names: Vec<&str> = records.iter().map(|r| as_utf8(&record_fields(r)[1].value)).collect();
    assert_eq!(names, vec!["a", "b", "c"]);
    assert!(!reader.has_next());
}

#[test]
fn composition_restores_the_path_context() {
    let schema = mk_group(
        "Triple",
        vec![
            mk_leaf("a", LeafType::Int32),
            mk_leaf("b", LeafType::Int32),
            mk_leaf("c", LeafType::Int32),
        ],
    );
    let rt = RecordType {
        name: "Triple".to_string(),
        fields: vec![
            mk_field("a", ValueType::Int32),
            mk_field("b", ValueType::Int32),
            mk_field("c", ValueType::Int32),
        ],
    };
    let (_, desc) = bind(&rt, &schema).unwrap();
    let registry = ColumnReaderRegistry {
        columns: vec![
            registered(vec!["outer", "a"], flat_column(vec![ScalarValue::Int32(1)])),
            registered(vec!["outer", "b"], flat_column(vec![ScalarValue::Int32(2)])),
            registered(vec!["outer", "c"], flat_column(vec![ScalarValue::Int32(3)])),
        ],
    };
    let mut path: Vec<String> = vec!["outer".to_string()];
    let _reader = compose(&desc, &mut path, 0, 0, &registry, 8);
    assert_eq!(path, vec!["outer".to_string()]);
}

#[test]
fn nested_composition_restores_the_path_context() {
    let schema = mk_group(
        "Outer",
        vec![mk_group("pos", vec![mk_leaf("x", LeafType::Int64)])],
    );
    let inner = RecordType {
        name: "Inner".to_string(),
        fields: vec![mk_field("x", ValueType::Int64)],
    };
    let rt = RecordType {
        name: "Outer".to_string(),
        fields: vec![mk_field("pos", ValueType::Record(inner))],
    };
    let (_, desc) = bind(&rt, &schema).unwrap();
    let registry = ColumnReaderRegistry {
        columns: vec![registered(vec!["pos", "x"], flat_column(vec![ScalarValue::Int64(9)]))],
    };
    let mut path: Vec<String> = Vec::new();
    let mut reader = compose(&desc, &mut path, 0, 0, &registry, 8);
    assert_eq!(path.len(), 0);
    let records = reader.read_all().unwrap();
    assert_eq!(records.len(), 1);
    let outer = record_fields(&records[0]);
    assert_eq!(outer[0].name, "pos");
    let pos = record_fields(&outer[0].value);
    assert_eq!(pos[0].name, "x");
    assert_eq!(as_i64(&pos[0].value), 9);
}

#[test]
fn queries_delegate_to_first_field_only() {
    let schema = mk_group(
        "Pair",
        vec![mk_leaf("a", LeafType::Int32), mk_leaf("b", LeafType::Int32)],
    );
    let rt = RecordType {
        name: "Pair".to_string(),
        fields: vec![mk_field("a", ValueType::Int32), mk_field("b", ValueType::Int32)],
    };
    let (_, desc) = bind(&rt, &schema).unwrap();
    let col_a = ColumnData {
        values: vec![ScalarValue::Int32(1), ScalarValue::Int32(2)],
        def_levels: vec![4, 5],
        rep_levels: vec![6, 7],
    };
    let col_b = ColumnData {
        values: vec![ScalarValue::Int32(3), ScalarValue::Int32(4)],
        def_levels: vec![8, 9],
        rep_levels: vec![1, 2],
    };
    let registry = ColumnReaderRegistry {
        columns: vec![registered(vec!["a"], col_a), registered(vec!["b"], col_b)],
    };
    let mut path: Vec<String> = Vec::new();
    let mut reader = compose(&desc, &mut path, 0, 0, &registry, 16);
    assert!(reader.has_next());
    assert_eq!(reader.current_def_level().unwrap(), 4);
    assert_eq!(reader.current_rep_level().unwrap(), 6);
    reader.advance_columns().unwrap();
    assert_eq!(reader.current_def_level().unwrap(), 5);
    assert_eq!(reader.current_rep_level().unwrap(), 7);
}

#[test]
fn empty_record_reader_uses_the_fixed_sentinels() {
    let reader = CompositeRecordReader { fields: Vec::new() };
    assert!(reader.has_next());
    assert!(matches!(
        reader.current_def_level(),
        Err(ReadError::EmptyGroupLevelQuery)
    ));
    assert!(matches!(
        reader.current_rep_level(),
        Err(ReadError::EmptyGroupLevelQuery)
    ));
    let rec = reader.read().unwrap();
    assert_eq!(record_fields(&rec).len(), 0);
    let mut reader = reader;
    reader.advance_columns().unwrap();
    assert!(reader.has_next());
}

#[test]
fn first_failing_field_aborts_the_read() {
    let schema = mk_group(
        "Pair",
        vec![mk_leaf("a", LeafType::Int32), mk_leaf("b", LeafType::Int32)],
    );
    let rt = RecordType {
        name: "Pair".to_string(),
        fields: vec![mk_field("a", ValueType::Int32), mk_field("b", ValueType::Int32)],
    };
    let (_, desc) = bind(&rt, &schema).unwrap();
    // Field b's column is shorter than field a's: reading past it fails.
    let registry = ColumnReaderRegistry {
        columns: vec![
            registered(
                vec!["a"],
                flat_column(vec![ScalarValue::Int32(1), ScalarValue::Int32(2)]),
            ),
            registered(vec!["b"], flat_column(vec![ScalarValue::Int32(3)])),
        ],
    };
    let mut path: Vec<String> = Vec::new();
    let mut reader = compose(&desc, &mut path, 0, 0, &registry, 16);
    let first = reader.read().unwrap();
    assert_eq!(record_fields(&first).len(), 2);
    reader.advance_columns().unwrap();
    // Field a still has a row, but field b's column is exhausted: the read
    // fails as a whole and no partial record is produced.
    assert!(matches!(reader.read(), Err(ReadError::EndOfColumn)));
    // Advancing now fails too, and changes nothing.
    assert!(matches!(reader.advance_columns(), Err(ReadError::EndOfColumn)));
    assert!(matches!(reader.read(), Err(ReadError::EndOfColumn)));
}

#[test]
fn bool_and_int32_scalars_assemble_too() {
    let schema = mk_group(
        "Mix",
        vec![mk_leaf("flag", LeafType::Bool), mk_leaf("n", LeafType::Int32)],
    );
    let rt = RecordType {
        name: "Mix".to_string(),
        fields: vec![mk_field("flag", ValueType::Bool), mk_field("n", ValueType::Int32)],
    };
    let (_, desc) = bind(&rt, &schema).unwrap();
    let registry = ColumnReaderRegistry {
        columns: vec![
            registered(vec!["flag"], flat_column(vec![ScalarValue::Bool(true)])),
            registered(vec!["n"], flat_column(vec![ScalarValue::Int32(-7)])),
        ],
    };
    let mut path: Vec<String> = Vec::new();
    let mut reader = compose(&desc, &mut path, 0, 0, &registry, 1);
    let records = reader.read_all().unwrap();
    assert_eq!(records.len(), 1);
    let fs = record_fields(&records[0]);
    assert!(matches!(fs[0].value, Value::Bool(true)));
    assert!(matches!(fs[1].value, Value::Int32(-7)));
}

#[test]
fn levels_inherited_at_composition_are_stored_on_leaf_readers() {
    let schema = mk_group("One", vec![mk_leaf("v", LeafType::Bool)]);
    let rt = RecordType {
        name: "One".to_string(),
        fields: vec![mk_field("v", ValueType::Bool)],
    };
    let (_, desc) = bind(&rt, &schema).unwrap();
    let registry = ColumnReaderRegistry {
        columns: vec![registered(vec!["v"], flat_column(vec![ScalarValue::Bool(true)]))],
    };
    let mut path: Vec<String> = Vec::new();
    let reader = compose(&desc, &mut path, 2, 1, &registry, 4);
    match &reader.fields[0].reader {
        record_assembly::reader::RecordReader::Leaf(l) => {
            assert_eq!(l.def_level, 2);
            assert_eq!(l.rep_level, 1);
            assert_eq!(l.batch_size, 4);
            assert_eq!(l.pos, 0);
        }
        _ => panic!("expected a leaf sub-reader"),
    }
}
