use replicate_to_s3::codec::{decode_value, encode_value};
use replicate_to_s3::event::{parse_last, Event, EventKind};
use replicate_to_s3::value::Value;

fn enc(v: &Value) -> Vec<u8> {
    let mut buf = Vec::new();
    encode_value(v, &mut buf);
    buf
}

fn debug_of(v: &Value) -> String {
    format!("{:?}", v)
}

fn round_trip(v: Value) {
    let bytes = enc(&v);
    let (decoded, end) = decode_value(&bytes, 0).expect("decodes");
    assert_eq!(end, bytes.len());
    assert_eq!(debug_of(&decoded), debug_of(&v));
}

#[test]
fn null_encodes_to_one_tag_byte() {
    assert_eq!(enc(&Value::Null), vec![0u8]);
}

#[test]
fn bool_encoding_bytes() {
    assert_eq!(enc(&Value::Bool(true)), vec![1u8, 1u8]);
    assert_eq!(enc(&Value::Bool(false)), vec![1u8, 0u8]);
}

#[test]
fn int_encoding_is_big_endian_two_complement() {
    let bytes = enc(&Value::Int(1));
    assert_eq!(bytes.len(), 17);
    assert_eq!(bytes[0], 2u8);
    assert_eq!(&bytes[1..16], &[0u8; 15]);
    assert_eq!(bytes[16], 1u8);
    let neg = enc(&Value::Int(-1));
    assert_eq!(&neg[1..], &[0xffu8; 16]);
}

#[test]
fn text_encoding_holds_utf8_bytes() {
    let bytes = enc(&Value::Text(String::from("ab")));
    assert_eq!(bytes[0], 3u8);
    assert_eq!(&bytes[1..9], &[0, 0, 0, 0, 0, 0, 0, 2]);
    assert_eq!(&bytes[9..], b"ab");
}

#[test]
fn scalar_round_trips() {
    round_trip(Value::Null);
    round_trip(Value::Bool(true));
    round_trip(Value::Int(0));
    round_trip(Value::Int(i128::MAX));
    round_trip(Value::Int(i128::MIN));
    round_trip(Value::Text(String::new()));
    round_trip(Value::Text(String::from("héllo wörld ✓")));
}

#[test]
fn container_round_trips() {
    round_trip(Value::Array(vec![]));
    round_trip(Value::Array(vec![
        Value::Int(1),
        Value::Text(String::from("x")),
        Value::Null,
    ]));
    round_trip(Value::Dict(vec![
        (String::from("b"), Value::Int(2)),
        (String::from("a"), Value::Bool(false)),
        (
            String::from("nested"),
            Value::Array(vec![Value::Dict(vec![(
                String::from("k"),
                Value::Text(String::from("v")),
            )])]),
        ),
    ]));
}

#[test]
fn dict_keeps_insertion_order() {
    let v = Value::Dict(vec![
        (String::from("z"), Value::Int(1)),
        (String::from("a"), Value::Int(2)),
    ]);
    let bytes = enc(&v);
    let (decoded, _) = decode_value(&bytes, 0).expect("decodes");
    match decoded {
        Value::Dict(entries) => {
            assert_eq!(entries[0].0, "z");
            assert_eq!(entries[1].0, "a");
        }
        other => panic!("expected a dict, got {:?}", other),
    }
}

#[test]
fn decode_rejects_unknown_tag_and_truncation() {
    assert!(decode_value(&[9u8], 0).is_none());
    assert!(decode_value(&[], 0).is_none());
    assert!(decode_value(&[2u8, 0, 0], 0).is_none());
    assert!(decode_value(&[1u8, 2u8], 0).is_none());
    // text promising more bytes than exist
    assert!(decode_value(&[3u8, 0, 0, 0, 0, 0, 0, 0, 5, b'a'], 0).is_none());
    // invalid UTF-8 text
    assert!(decode_value(&[3u8, 0, 0, 0, 0, 0, 0, 0, 1, 0xff], 0).is_none());
}

#[test]
fn decode_rejects_non_text_dict_key() {
    // a dict of one entry whose key is an integer
    let mut bytes = vec![5u8, 0, 0, 0, 0, 0, 0, 0, 1];
    bytes.extend_from_slice(&enc(&Value::Int(1)));
    bytes.extend_from_slice(&enc(&Value::Null));
    assert!(decode_value(&bytes, 0).is_none());
}

#[test]
fn decode_leaves_trailing_bytes_alone() {
    let mut bytes = enc(&Value::Int(7));
    let own_len = bytes.len();
    bytes.extend_from_slice(b"garbage");
    let (decoded, end) = decode_value(&bytes, 0).expect("decodes");
    assert_eq!(end, own_len);
    assert_eq!(debug_of(&decoded), debug_of(&Value::Int(7)));
}

fn frame_of(e: Event) -> Vec<u8> {
    let mut buf = Vec::new();
    replicate_to_s3::event::append_frame(&mut buf, e);
    buf
}

fn sample_event(kind: EventKind, lsn: u64) -> Event {
    Event {
        kind,
        timestamp: 1_700_000_000_000_000,
        relation_id: Some(42),
        last_lsn: lsn,
        data: Value::Dict(vec![(String::from("id"), Value::Int(1))]),
    }
}

#[test]
fn parse_last_returns_last_complete_record() {
    let mut chunk = frame_of(sample_event(EventKind::Begin, 10));
    chunk.extend_from_slice(&frame_of(sample_event(EventKind::Insert, 10)));
    chunk.extend_from_slice(&frame_of(sample_event(EventKind::Commit, 12)));
    let last = parse_last(&chunk).expect("parses");
    assert_eq!(last.kind, EventKind::Commit);
    assert_eq!(last.last_lsn, 12);
    assert_eq!(last.relation_id, Some(42));
}

#[test]
fn parse_last_ignores_torn_tail() {
    let mut chunk = frame_of(sample_event(EventKind::Commit, 33));
    // a torn write: a length prefix promising more bytes than exist
    chunk.extend_from_slice(&[0, 0, 0, 0, 0, 0, 1, 0, 1, 2, 3]);
    let last = parse_last(&chunk).expect("parses");
    assert_eq!(last.kind, EventKind::Commit);
    assert_eq!(last.last_lsn, 33);
    // a tail shorter than a length prefix
    let mut chunk2 = frame_of(sample_event(EventKind::Insert, 7));
    chunk2.extend_from_slice(&[0, 1, 2]);
    let last2 = parse_last(&chunk2).expect("parses");
    assert_eq!(last2.last_lsn, 7);
}

#[test]
fn parse_last_rejects_chunk_without_complete_record() {
    assert!(parse_last(&[]).is_none());
    assert!(parse_last(&[0, 0, 0, 0, 0, 0, 0, 9, 1, 2]).is_none());
}

#[test]
fn parse_last_rejects_corrupt_record() {
    // a complete frame whose body is not an encoded event
    let mut chunk = Vec::new();
    chunk.extend_from_slice(&[0, 0, 0, 0, 0, 0, 0, 3]);
    chunk.extend_from_slice(&[9, 9, 9]);
    assert!(parse_last(&chunk).is_none());
}

#[test]
fn event_frame_round_trips_through_parse_last() {
    let e = Event {
        kind: EventKind::Schema,
        timestamp: -5,
        relation_id: None,
        last_lsn: u64::MAX,
        data: Value::Array(vec![Value::Text(String::from("t"))]),
    };
    let chunk = frame_of(e);
    let back = parse_last(&chunk).expect("parses");
    assert_eq!(back.kind, EventKind::Schema);
    assert_eq!(back.timestamp, -5);
    assert_eq!(back.relation_id, None);
    assert_eq!(back.last_lsn, u64::MAX);
    assert_eq!(
        format!("{:?}", back.data),
        format!(
            "{:?}",
            Value::Array(vec![Value::Text(String::from("t"))])
        )
    );
}
