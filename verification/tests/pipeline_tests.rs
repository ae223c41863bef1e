use replicate_to_s3::chunk::ROWS_PER_DATA_CHUNK;
use replicate_to_s3::convert::{BeginData, CommitData, TupleCell};
use replicate_to_s3::event::{parse_last, EventKind};
use replicate_to_s3::keys::{
    get_done_object_path, largest_realtime_file_number, realtime_chunk_key, table_chunk_key,
    u32_to_decimal,
};
use replicate_to_s3::resume::{get_realtime_resumption_data, ResumeFilter};
use replicate_to_s3::schema::{Attribute, Table, TableSchema, OID_INT4, OID_VARCHAR};
use replicate_to_s3::snapshot::{plan_table_copy, TableCopyPlan, TableCopyState};
use replicate_to_s3::stream::{LogicalMsg, ReplMsg, StreamError, StreamState, StreamStep};

fn test_schema() -> TableSchema {
    TableSchema {
        relation_id: 7,
        table: Table {
            schema: String::from("public"),
            name: String::from("t"),
        },
        attributes: vec![
            Attribute {
                name: String::from("id"),
                type_oid: OID_INT4,
                type_modifier: -1,
                identity: true,
                nullable: false,
            },
            Attribute {
                name: String::from("name"),
                type_oid: OID_VARCHAR,
                type_modifier: -1,
                identity: false,
                nullable: true,
            },
        ],
    }
}

fn row(id: i64, name: &str) -> Vec<TupleCell> {
    vec![
        TupleCell::Text(id.to_string().into_bytes()),
        TupleCell::Text(name.as_bytes().to_vec()),
    ]
}

fn count_records(mut bytes: &[u8]) -> usize {
    let mut n = 0;
    while bytes.len() >= 8 {
        let mut len_bytes = [0u8; 8];
        len_bytes.copy_from_slice(&bytes[..8]);
        let len = u64::from_be_bytes(len_bytes) as usize;
        if bytes.len() < 8 + len {
            break;
        }
        bytes = &bytes[8 + len..];
        n += 1;
    }
    n
}

fn insert_msg(lsn: u64, id: i64, name: &str) -> ReplMsg {
    ReplMsg::XLogData {
        wal_end: lsn,
        data: LogicalMsg::Insert {
            rel_id: 7,
            tuple: row(id, name),
        },
    }
}

fn begin_msg(lsn: u64) -> ReplMsg {
    ReplMsg::XLogData {
        wal_end: lsn,
        data: LogicalMsg::Begin(BeginData {
            final_lsn: lsn,
            timestamp: 0,
            xid: 1,
        }),
    }
}

fn commit_msg(lsn: u64) -> ReplMsg {
    ReplMsg::XLogData {
        wal_end: lsn,
        data: LogicalMsg::Commit(CommitData {
            commit_lsn: lsn,
            end_lsn: lsn,
            timestamp: 0,
            flags: 0,
        }),
    }
}

#[test]
fn keys_render_as_documented() {
    assert_eq!(u32_to_decimal(0), "0");
    assert_eq!(u32_to_decimal(10), "10");
    assert_eq!(u32_to_decimal(4294967295), "4294967295");
    assert_eq!(realtime_chunk_key(7), "realtime_changes/7");
    let t = test_schema().table;
    assert_eq!(table_chunk_key(&t, 3), "table_copies/public.t/3");
    assert_eq!(get_done_object_path(&t), "table_copies/public.t/done");
}

#[test]
fn largest_file_number_cases() {
    let keys: Vec<String> = Vec::new();
    assert_eq!(largest_realtime_file_number(&keys), Ok(None));
    let keys = vec![
        String::from("realtime_changes/3"),
        String::from("realtime_changes/12"),
        String::from("realtime_changes/5"),
    ];
    assert_eq!(largest_realtime_file_number(&keys), Ok(Some(12)));
    let keys = vec![String::from("table_copies/public.t/1")];
    assert_eq!(largest_realtime_file_number(&keys), Err(()));
    let keys = vec![String::from("realtime_changes/x")];
    assert_eq!(largest_realtime_file_number(&keys), Err(()));
}

#[test]
fn fresh_bootstrap_writes_schema_then_rows_then_done() {
    // one table with two rows: one short chunk, then the done marker
    let schema = test_schema();
    let mut copy = TableCopyState::new(schema, 0);
    assert!(copy.push_row(&row(1, "a"), 0).expect("row").is_none());
    assert!(copy.push_row(&row(2, "b"), 0).expect("row").is_none());
    let (final_chunk, done_key) = copy.finish();
    let sealed = final_chunk.expect("a final short chunk");
    assert_eq!(sealed.number, 1);
    assert_eq!(count_records(&sealed.bytes), 3);
    let last = parse_last(&sealed.bytes).expect("parses");
    assert_eq!(last.kind, EventKind::Insert);
    assert_eq!(last.relation_id, Some(7));
    assert_eq!(last.last_lsn, 0);
    assert_eq!(done_key, "table_copies/public.t/done");
}

#[test]
fn chunk_rollover_at_ten_records() {
    // 25 rows: the schema record displaces one row of chunk one, so chunks
    // one and two hold ten records each and chunk three holds the rest
    let schema = test_schema();
    let mut copy = TableCopyState::new(schema, 0);
    let mut sealed_chunks = Vec::new();
    for i in 0..25i64 {
        if let Some(sealed) = copy.push_row(&row(i, "r"), 0).expect("row") {
            sealed_chunks.push(sealed);
        }
    }
    let (final_chunk, _done_key) = copy.finish();
    let last = final_chunk.expect("a final short chunk");
    assert_eq!(sealed_chunks.len(), 2);
    assert_eq!(sealed_chunks[0].number, 1);
    assert_eq!(sealed_chunks[1].number, 2);
    assert_eq!(last.number, 3);
    assert_eq!(count_records(&sealed_chunks[0].bytes), 10);
    assert_eq!(count_records(&sealed_chunks[1].bytes), 10);
    assert_eq!(count_records(&last.bytes), 6);
    let first_last = parse_last(&sealed_chunks[0].bytes).expect("parses");
    assert_eq!(first_last.kind, EventKind::Insert);
}

#[test]
fn skip_plan_for_done_table_redo_otherwise() {
    let keys = vec![String::from("table_copies/public.t/1")];
    assert!(matches!(
        plan_table_copy(true, keys.clone()),
        TableCopyPlan::Skip
    ));
    match plan_table_copy(false, keys.clone()) {
        TableCopyPlan::Redo { delete_keys } => assert_eq!(delete_keys, keys),
        TableCopyPlan::Skip => panic!("expected a redo"),
    }
}

#[test]
fn keepalive_sends_ack_at_highest_durable_position() {
    let mut state = StreamState::new(100, 0);
    let mut filter = ResumeFilter::fresh();
    let schemas = vec![test_schema()];
    let before_rows = state.writer.row_count;
    match state
        .handle_message(&mut filter, &schemas, ReplMsg::PrimaryKeepAlive { reply: true }, 0)
        .expect("ok")
    {
        StreamStep::Standby { lsn } => assert_eq!(lsn, 100),
        _ => panic!("expected a standby update"),
    }
    // the chunk buffer is untouched by a keepalive
    assert_eq!(state.writer.row_count, before_rows);
    match state
        .handle_message(&mut filter, &schemas, ReplMsg::PrimaryKeepAlive { reply: false }, 0)
        .expect("ok")
    {
        StreamStep::Quiet => {}
        _ => panic!("expected no action"),
    }
}

#[test]
fn unknown_relation_is_fatal_and_buffer_unchanged() {
    let mut state = StreamState::new(0, 0);
    let mut filter = ResumeFilter::fresh();
    let schemas = vec![test_schema()];
    let msg = ReplMsg::XLogData {
        wal_end: 5,
        data: LogicalMsg::Insert {
            rel_id: 99,
            tuple: row(1, "a"),
        },
    };
    match state.handle_message(&mut filter, &schemas, msg, 0) {
        Err(StreamError::UnknownRelation(99)) => {}
        other => panic!("unexpected: {:?}", other.map(|_| ())),
    }
    assert_eq!(state.writer.row_count, 0);
}

#[test]
fn stream_seals_chunk_after_ten_events_and_acks_after_confirm() {
    let mut state = StreamState::new(100, 0);
    let mut filter = ResumeFilter::fresh();
    let schemas = vec![test_schema()];
    let mut flushed = None;
    for txn in 0..5u64 {
        let base = 200 + txn * 10;
        let steps = vec![begin_msg(base), commit_msg(base + 5)];
        for msg in steps {
            match state.handle_message(&mut filter, &schemas, msg, 0).expect("ok") {
                StreamStep::Quiet => {}
                StreamStep::Flush(sealed) => {
                    assert!(flushed.is_none());
                    flushed = Some(sealed);
                    state.confirm_flush();
                }
                StreamStep::Standby { .. } => panic!("no standby expected"),
            }
        }
    }
    let sealed = flushed.expect("ten events seal a chunk");
    assert_eq!(sealed.number, 1);
    assert_eq!(count_records(&sealed.bytes), ROWS_PER_DATA_CHUNK as usize);
    let last = parse_last(&sealed.bytes).expect("parses");
    assert_eq!(last.kind, EventKind::Commit);
    assert_eq!(last.last_lsn, 245);
    // the ack now carries the flushed commit's position
    match state
        .handle_message(&mut filter, &schemas, ReplMsg::PrimaryKeepAlive { reply: true }, 0)
        .expect("ok")
    {
        StreamStep::Standby { lsn } => assert_eq!(lsn, 245),
        _ => panic!("expected a standby update"),
    }
}

#[test]
fn resume_after_commit_drops_replayed_events() {
    // the largest chunk ends in a commit at position 245
    let mut state = StreamState::new(100, 0);
    let mut filter = ResumeFilter::fresh();
    let schemas = vec![test_schema()];
    let mut chunk_bytes = None;
    for txn in 0..5u64 {
        let base = 200 + txn * 10;
        for msg in vec![begin_msg(base), commit_msg(base + 5)] {
            if let StreamStep::Flush(sealed) =
                state.handle_message(&mut filter, &schemas, msg, 0).expect("ok")
            {
                chunk_bytes = Some(sealed.bytes);
                state.confirm_flush();
            }
        }
    }
    let bytes = chunk_bytes.expect("sealed");

    // restart: resumption reads the last record back
    let rd = get_realtime_resumption_data(&bytes, 1).expect("resumes");
    assert_eq!(rd.resume_lsn, 245);
    assert_eq!(rd.last_kind, EventKind::Commit);
    assert_eq!(rd.last_file_name, 1);
    assert!(!rd.skipping_events);

    let mut state2 = StreamState::new(245, rd.last_file_name);
    let mut filter2 = ResumeFilter::from_resumption(&rd);
    // the upstream replays the last transaction; every event is dropped
    for msg in vec![begin_msg(240), commit_msg(245)] {
        match state2.handle_message(&mut filter2, &schemas, msg, 0).expect("ok") {
            StreamStep::Quiet => {}
            _ => panic!("replayed events must be dropped"),
        }
    }
    assert_eq!(state2.writer.row_count, 0);
    // the next fresh transaction flows again
    match state2
        .handle_message(&mut filter2, &schemas, begin_msg(250), 0)
        .expect("ok")
    {
        StreamStep::Quiet => {}
        _ => panic!("expected a quiet append"),
    }
    assert_eq!(state2.writer.row_count, 1);
}

#[test]
fn resume_mid_transaction_skips_until_matching_commit() {
    // the largest chunk ends in an insert at position 300: the run crashed
    // inside a transaction
    let mut buf = Vec::new();
    let e = replicate_to_s3::event::Event {
        kind: EventKind::Insert,
        timestamp: 0,
        relation_id: Some(7),
        last_lsn: 300,
        data: replicate_to_s3::value::Value::Null,
    };
    replicate_to_s3::event::append_frame(&mut buf, e);
    let rd = get_realtime_resumption_data(&buf, 4).expect("resumes");
    assert_eq!(rd.resume_lsn, 300);
    assert_eq!(rd.last_kind, EventKind::Insert);
    assert!(rd.skipping_events);

    let schemas = vec![test_schema()];
    let mut state = StreamState::new(300, rd.last_file_name);
    let mut filter = ResumeFilter::from_resumption(&rd);
    // the whole interrupted transaction is replayed at the same position
    for msg in vec![
        begin_msg(300),
        insert_msg(300, 1, "a"),
        insert_msg(300, 2, "b"),
    ] {
        match state.handle_message(&mut filter, &schemas, msg, 0).expect("ok") {
            StreamStep::Quiet => {}
            _ => panic!("replayed events must be dropped"),
        }
    }
    assert!(filter.skipping_events);
    // its commit is dropped too, and ends the skipping phase
    match state
        .handle_message(&mut filter, &schemas, commit_msg(300), 0)
        .expect("ok")
    {
        StreamStep::Quiet => {}
        _ => panic!("the matching commit is dropped"),
    }
    assert!(!filter.skipping_events);
    assert_eq!(state.writer.row_count, 0);
    // later events flow
    state
        .handle_message(&mut filter, &schemas, begin_msg(310), 0)
        .expect("ok");
    assert_eq!(state.writer.row_count, 1);
}

#[test]
fn resumption_rejects_chunk_without_records() {
    assert!(get_realtime_resumption_data(&[], 1).is_none());
    assert!(get_realtime_resumption_data(&[0, 0, 0, 0, 0, 0, 0, 9, 1], 1).is_none());
}

#[test]
fn graceful_rerun_creates_no_new_chunks() {
    // after a graceful shutdown the last record is a commit; an unchanged
    // upstream replays nothing past it, so no chunk is ever started
    let rd = replicate_to_s3::resume::ResumptionData {
        resume_lsn: 500,
        last_kind: EventKind::Commit,
        last_file_name: 9,
        skipping_events: false,
    };
    let schemas = vec![test_schema()];
    let mut state = StreamState::new(500, rd.last_file_name);
    let mut filter = ResumeFilter::from_resumption(&rd);
    for msg in vec![begin_msg(490), insert_msg(495, 1, "a"), commit_msg(500)] {
        match state.handle_message(&mut filter, &schemas, msg, 0).expect("ok") {
            StreamStep::Quiet => {}
            _ => panic!("an unchanged upstream must produce nothing"),
        }
    }
    assert_eq!(state.writer.row_count, 0);
    assert_eq!(state.writer.chunk_count, 9);
    // and a done table's snapshot is not touched either
    assert!(matches!(plan_table_copy(true, Vec::new()), TableCopyPlan::Skip));
}

fn scan_events(bytes: &[u8]) -> Vec<replicate_to_s3::event::Event> {
    let mut events = Vec::new();
    let mut pos = 0usize;
    while bytes.len() - pos >= 8 {
        let mut len_bytes = [0u8; 8];
        len_bytes.copy_from_slice(&bytes[pos..pos + 8]);
        let len = u64::from_be_bytes(len_bytes) as usize;
        if bytes.len() - pos - 8 < len {
            break;
        }
        let (v, end) = replicate_to_s3::codec::decode_value(bytes, pos + 8).expect("record decodes");
        assert_eq!(end, pos + 8 + len);
        events.push(replicate_to_s3::event::value_to_event(v).expect("record is an event"));
        pos = end;
    }
    events
}

#[test]
fn chunk_records_scan_front_to_back_with_nondecreasing_positions() {
    let mut state = StreamState::new(100, 3);
    let mut filter = ResumeFilter::fresh();
    let schemas = vec![test_schema()];
    let mut flushed = None;
    for txn in 0..5u64 {
        let base = 200 + txn * 10;
        for msg in vec![begin_msg(base), commit_msg(base + 5)] {
            if let StreamStep::Flush(sealed) =
                state.handle_message(&mut filter, &schemas, msg, 0).expect("ok")
            {
                flushed = Some(sealed);
                state.confirm_flush();
            }
        }
    }
    let sealed = flushed.expect("sealed");
    assert_eq!(sealed.number, 4);
    let events = scan_events(&sealed.bytes);
    assert_eq!(events.len(), 10);
    for w in events.windows(2) {
        assert!(w[0].last_lsn <= w[1].last_lsn);
    }
    assert_eq!(events[0].kind, EventKind::Begin);
    assert_eq!(events[9].kind, EventKind::Commit);
}

#[test]
fn truncate_origin_and_type_are_ignored() {
    let mut state = StreamState::new(0, 0);
    let mut filter = ResumeFilter::fresh();
    let schemas = vec![test_schema()];
    for data in vec![LogicalMsg::Origin, LogicalMsg::TypeDesc, LogicalMsg::Truncate] {
        match state
            .handle_message(&mut filter, &schemas, ReplMsg::XLogData { wal_end: 1, data }, 0)
            .expect("ok")
        {
            StreamStep::Quiet => {}
            _ => panic!("ignored messages produce nothing"),
        }
    }
    assert_eq!(state.writer.row_count, 0);
}

#[test]
fn unsupported_messages_are_fatal() {
    let mut state = StreamState::new(0, 0);
    let mut filter = ResumeFilter::fresh();
    let schemas = vec![test_schema()];
    assert!(matches!(
        state.handle_message(&mut filter, &schemas, ReplMsg::Unsupported, 0),
        Err(StreamError::UnsupportedReplicationMessage)
    ));
    assert!(matches!(
        state.handle_message(
            &mut filter,
            &schemas,
            ReplMsg::XLogData {
                wal_end: 1,
                data: LogicalMsg::Unsupported
            },
            0
        ),
        Err(StreamError::UnsupportedLogicalMessage)
    ));
}

#[test]
fn delete_uses_key_tuple_then_old_tuple() {
    let mut state = StreamState::new(0, 0);
    let mut filter = ResumeFilter::fresh();
    let schemas = vec![test_schema()];
    let with_key = ReplMsg::XLogData {
        wal_end: 4,
        data: LogicalMsg::Delete {
            rel_id: 7,
            key_tuple: Some(row(1, "a")),
            old_tuple: None,
        },
    };
    state.handle_message(&mut filter, &schemas, with_key, 0).expect("ok");
    let with_old = ReplMsg::XLogData {
        wal_end: 5,
        data: LogicalMsg::Delete {
            rel_id: 7,
            key_tuple: None,
            old_tuple: Some(row(2, "b")),
        },
    };
    state.handle_message(&mut filter, &schemas, with_old, 0).expect("ok");
    assert_eq!(state.writer.row_count, 2);
    let with_neither = ReplMsg::XLogData {
        wal_end: 6,
        data: LogicalMsg::Delete {
            rel_id: 7,
            key_tuple: None,
            old_tuple: None,
        },
    };
    assert!(matches!(
        state.handle_message(&mut filter, &schemas, with_neither, 0),
        Err(StreamError::MissingDeleteTuple)
    ));
}
