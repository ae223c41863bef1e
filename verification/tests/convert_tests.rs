use replicate_to_s3::convert::{
    begin_body_to_event_data, commit_body_to_event_data, get_data, get_val_from_tuple_data,
    parse_i32_text, parse_u32_digits, relation_body_to_event_data, table_schema_to_event_data,
    BeginData, CommitData, RelationColumn, RelationData, TupleCell, TupleError,
};
use replicate_to_s3::schema::{Attribute, Table, TableSchema, OID_INT4, OID_VARCHAR, OID_TIMESTAMP};
use replicate_to_s3::value::Value;

fn debug_of(v: &Value) -> String {
    format!("{:?}", v)
}

#[test]
fn parse_i32_accepts_signed_decimal() {
    assert_eq!(parse_i32_text("123"), Some(123));
    assert_eq!(parse_i32_text("-123"), Some(-123));
    assert_eq!(parse_i32_text("+5"), Some(5));
    assert_eq!(parse_i32_text("0"), Some(0));
    assert_eq!(parse_i32_text("002"), Some(2));
    assert_eq!(parse_i32_text("2147483647"), Some(i32::MAX));
    assert_eq!(parse_i32_text("-2147483648"), Some(i32::MIN));
}

#[test]
fn parse_i32_rejects_bad_text() {
    assert_eq!(parse_i32_text(""), None);
    assert_eq!(parse_i32_text("-"), None);
    assert_eq!(parse_i32_text("+"), None);
    assert_eq!(parse_i32_text("12a"), None);
    assert_eq!(parse_i32_text(" 1"), None);
    assert_eq!(parse_i32_text("2147483648"), None);
    assert_eq!(parse_i32_text("-2147483649"), None);
    assert_eq!(parse_i32_text("99999999999999999999999999"), None);
}

#[test]
fn parse_u32_cases() {
    assert_eq!(parse_u32_digits("0"), Some(0));
    assert_eq!(parse_u32_digits("4294967295"), Some(u32::MAX));
    assert_eq!(parse_u32_digits("4294967296"), None);
    assert_eq!(parse_u32_digits("-1"), None);
    assert_eq!(parse_u32_digits(""), None);
}

#[test]
fn tuple_cell_interpretation() {
    assert!(matches!(
        get_val_from_tuple_data(OID_INT4, &TupleCell::Null),
        Ok(Value::Null)
    ));
    assert!(matches!(
        get_val_from_tuple_data(OID_INT4, &TupleCell::UnchangedToast),
        Err(TupleError::UnchangedToast)
    ));
    assert!(matches!(
        get_val_from_tuple_data(OID_INT4, &TupleCell::Text(b"42".to_vec())),
        Ok(Value::Int(42))
    ));
    assert!(matches!(
        get_val_from_tuple_data(OID_INT4, &TupleCell::Text(b"x".to_vec())),
        Err(TupleError::NotAnInteger)
    ));
    match get_val_from_tuple_data(OID_VARCHAR, &TupleCell::Text(b"abc".to_vec())) {
        Ok(Value::Text(s)) => assert_eq!(s, "abc"),
        other => panic!("unexpected: {:?}", other),
    }
    assert!(matches!(
        get_val_from_tuple_data(OID_VARCHAR, &TupleCell::Text(vec![0xff])),
        Err(TupleError::InvalidUtf8)
    ));
    assert!(matches!(
        get_val_from_tuple_data(16, &TupleCell::Text(b"t".to_vec())),
        Err(TupleError::UnsupportedType(16))
    ));
}

#[test]
fn timestamp_cell_parses_to_unix_nanos() {
    match get_val_from_tuple_data(
        OID_TIMESTAMP,
        &TupleCell::Text(b"2023-01-02 03:04:05".to_vec()),
    ) {
        Ok(Value::Int(n)) => assert_eq!(n, 1_672_628_645_000_000_000),
        other => panic!("unexpected: {:?}", other),
    }
    match get_val_from_tuple_data(
        OID_TIMESTAMP,
        &TupleCell::Text(b"2023-01-02 03:04:05.25".to_vec()),
    ) {
        Ok(Value::Int(n)) => assert_eq!(n, 1_672_628_645_250_000_000),
        other => panic!("unexpected: {:?}", other),
    }
    assert!(matches!(
        get_val_from_tuple_data(OID_TIMESTAMP, &TupleCell::Text(b"not a time".to_vec())),
        Err(TupleError::BadTimestamp)
    ));
}

fn test_schema() -> TableSchema {
    TableSchema {
        relation_id: 7,
        table: Table {
            schema: String::from("public"),
            name: String::from("t"),
        },
        attributes: vec![
            Attribute {
                name: String::from("id"),
                type_oid: OID_INT4,
                type_modifier: -1,
                identity: true,
                nullable: false,
            },
            Attribute {
                name: String::from("name"),
                type_oid: OID_VARCHAR,
                type_modifier: -1,
                identity: false,
                nullable: true,
            },
        ],
    }
}

#[test]
fn row_data_keeps_attribute_order() {
    let schema = test_schema();
    let cells = vec![
        TupleCell::Text(b"1".to_vec()),
        TupleCell::Text(b"a".to_vec()),
    ];
    let v = get_data(&schema, &cells).expect("decodes");
    assert_eq!(
        debug_of(&v),
        debug_of(&Value::Dict(vec![
            (String::from("id"), Value::Int(1)),
            (String::from("name"), Value::Text(String::from("a"))),
        ]))
    );
}

#[test]
fn row_data_rejects_wrong_arity_and_bad_cell() {
    let schema = test_schema();
    assert!(matches!(
        get_data(&schema, &vec![TupleCell::Null]),
        Err(TupleError::WrongArity)
    ));
    let cells = vec![TupleCell::Text(b"x".to_vec()), TupleCell::Null];
    assert!(matches!(get_data(&schema, &cells), Err(TupleError::NotAnInteger)));
}

#[test]
fn begin_commit_payloads() {
    let b = begin_body_to_event_data(&BeginData {
        final_lsn: 9,
        timestamp: 5,
        xid: 3,
    });
    assert_eq!(
        debug_of(&b),
        debug_of(&Value::Dict(vec![
            (String::from("final_lsn"), Value::Int(9)),
            (String::from("timestamp"), Value::Int(5)),
            (String::from("xid"), Value::Int(3)),
        ]))
    );
    let c = commit_body_to_event_data(&CommitData {
        commit_lsn: 11,
        end_lsn: 12,
        timestamp: 13,
        flags: 0,
    });
    assert_eq!(
        debug_of(&c),
        debug_of(&Value::Dict(vec![
            (String::from("commit_lsn"), Value::Int(11)),
            (String::from("end_lsn"), Value::Int(12)),
            (String::from("timestamp"), Value::Int(13)),
            (String::from("flags"), Value::Int(0)),
        ]))
    );
}

#[test]
fn relation_and_schema_payloads() {
    let r = relation_body_to_event_data(&RelationData {
        rel_id: 7,
        namespace: String::from("public"),
        name: String::from("t"),
        columns: vec![RelationColumn {
            name: String::from("id"),
            flags: 1,
            type_id: 23,
            type_modifier: -1,
        }],
    });
    assert_eq!(
        debug_of(&r),
        debug_of(&Value::Dict(vec![
            (String::from("schema"), Value::Text(String::from("public"))),
            (String::from("table"), Value::Text(String::from("t"))),
            (
                String::from("columns"),
                Value::Array(vec![Value::Dict(vec![
                    (String::from("name"), Value::Text(String::from("id"))),
                    (String::from("identity"), Value::Bool(true)),
                    (String::from("type_id"), Value::Int(23)),
                    (String::from("type_modifier"), Value::Int(-1)),
                ])])
            ),
        ]))
    );
    let s = table_schema_to_event_data(&test_schema());
    match s {
        Value::Dict(entries) => {
            assert_eq!(entries.len(), 3);
            assert_eq!(entries[0].0, "schema");
            assert_eq!(entries[1].0, "table");
            assert_eq!(entries[2].0, "columns");
            match &entries[2].1 {
                Value::Array(cols) => assert_eq!(cols.len(), 2),
                other => panic!("unexpected: {:?}", other),
            }
        }
        other => panic!("unexpected: {:?}", other),
    }
}
