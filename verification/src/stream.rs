//! The stream copier: one decision step per upstream replication message.
//! Events that pass the resume filter are framed into chunks; a full chunk is
//! handed out to be put to the sink, and only a confirmed put advances the
//! acknowledged log position. Keepalives asking for a reply produce a standby
//! status update carrying that position, never more.

use vstd::prelude::*;
use crate::chunk::{ChunkWriter, SealedChunk, ROWS_PER_DATA_CHUNK, lsns_nondecreasing};
use crate::convert::{
    BeginData, CommitData, RelationData, TupleCell, TupleError, spec_begin_event_data,
    spec_commit_event_data, spec_relation_event_data, spec_row_data, begin_body_to_event_data,
    commit_body_to_event_data, relation_body_to_event_data, get_data,
};
use crate::event::{Event, EventKind, EventModel};
use crate::resume::{ResumeFilter, spec_should_skip};
use crate::schema::{TableSchema, spec_has_relation, spec_relation_index, find_schema};

verus! {

broadcast use vstd::std_specs::vec::group_vec_axioms, vstd::seq::group_seq_axioms;

/// One logical replication message, as plain data.
pub enum LogicalMsg {
    Begin(BeginData),
    Commit(CommitData),
    Origin,
    Relation(RelationData),
    TypeDesc,
    Insert { rel_id: u32, tuple: Vec<TupleCell> },
    Update { rel_id: u32, new_tuple: Vec<TupleCell> },
    Delete { rel_id: u32, key_tuple: Option<Vec<TupleCell>>, old_tuple: Option<Vec<TupleCell>> },
    Truncate,
    Unsupported,
}

/// One replication protocol message, as plain data.
pub enum ReplMsg {
    XLogData { wal_end: u64, data: LogicalMsg },
    PrimaryKeepAlive { reply: bool },
    Unsupported,
}

/// A fatal condition met while streaming.
#[derive(Debug, Clone, Copy, PartialEq, Eq, Structural)]
pub enum StreamError {
    UnknownRelation(u32),
    UnsupportedLogicalMessage,
    UnsupportedReplicationMessage,
    MissingDeleteTuple,
    Tuple(TupleError),
}

/// What the caller must do after one step: nothing, put a sealed chunk to the
/// sink and confirm it, or send a standby status update at the given log
/// position.
pub enum StreamStep {
    Quiet,
    Flush(SealedChunk),
    Standby { lsn: u64 },
}

/// The kind of event that a logical message appends, if it appends one.
pub open spec fn lm_kind(lm: LogicalMsg) -> Option<EventKind> {
    match lm {
        LogicalMsg::Begin(_) => Some(EventKind::Begin),
        LogicalMsg::Commit(_) => Some(EventKind::Commit),
        LogicalMsg::Relation(_) => Some(EventKind::Relation),
        LogicalMsg::Insert { .. } => Some(EventKind::Insert),
        LogicalMsg::Update { .. } => Some(EventKind::Update),
        LogicalMsg::Delete { .. } => Some(EventKind::Delete),
        _ => None,
    }
}

/// Whether the logical message is one the copier ignores.
pub open spec fn lm_ignored(lm: LogicalMsg) -> bool {
    lm is Origin || lm is TypeDesc || lm is Truncate
}

/// No two table schemas carry the same relation id.
pub open spec fn rel_ids_unique(schemas: Seq<TableSchema>) -> bool {
    forall|i: int, j: int|
        0 <= i < j < schemas.len() ==> (#[trigger] schemas[i]).relation_id != (
        #[trigger] schemas[j]).relation_id
}

/// The schema carrying a relation id.
pub open spec fn schema_of(schemas: Seq<TableSchema>, rel_id: u32) -> TableSchema {
    schemas[spec_relation_index(schemas, rel_id)]
}

/// The event that an upstream logical message turns into, or the fatal
/// condition that rejects it: an unknown relation id, a rejected tuple field,
/// a delete without a tuple, an unsupported message.
pub open spec fn spec_xlog_event(
    lm: LogicalMsg,
    schemas: Seq<TableSchema>,
    wal_end: u64,
    now: i64,
) -> Result<EventModel, StreamError> {
    match lm {
        LogicalMsg::Begin(b) => Ok(
            EventModel {
                kind: EventKind::Begin,
                timestamp: now,
                relation_id: None,
                last_lsn: wal_end,
                data: spec_begin_event_data(b),
            },
        ),
        LogicalMsg::Commit(c) => Ok(
            EventModel {
                kind: EventKind::Commit,
                timestamp: now,
                relation_id: None,
                last_lsn: wal_end,
                data: spec_commit_event_data(c),
            },
        ),
        LogicalMsg::Relation(r) => if spec_has_relation(schemas, r.rel_id) {
            Ok(
                EventModel {
                    kind: EventKind::Relation,
                    timestamp: now,
                    relation_id: Some(r.rel_id),
                    last_lsn: wal_end,
                    data: spec_relation_event_data(r),
                },
            )
        } else {
            Err(StreamError::UnknownRelation(r.rel_id))
        },
        LogicalMsg::Insert { rel_id, tuple } => if spec_has_relation(schemas, rel_id) {
            match spec_row_data(schema_of(schemas, rel_id), tuple@) {
                Ok(d) => Ok(
                    EventModel {
                        kind: EventKind::Insert,
                        timestamp: now,
                        relation_id: Some(rel_id),
                        last_lsn: wal_end,
                        data: d,
                    },
                ),
                Err(te) => Err(StreamError::Tuple(te)),
            }
        } else {
            Err(StreamError::UnknownRelation(rel_id))
        },
        LogicalMsg::Update { rel_id, new_tuple } => if spec_has_relation(schemas, rel_id) {
            match spec_row_data(schema_of(schemas, rel_id), new_tuple@) {
                Ok(d) => Ok(
                    EventModel {
                        kind: EventKind::Update,
                        timestamp: now,
                        relation_id: Some(rel_id),
                        last_lsn: wal_end,
                        data: d,
                    },
                ),
                Err(te) => Err(StreamError::Tuple(te)),
            }
        } else {
            Err(StreamError::UnknownRelation(rel_id))
        },
        LogicalMsg::Delete { rel_id, key_tuple, old_tuple } => if spec_has_relation(
            schemas,
            rel_id,
        ) {
            match (key_tuple, old_tuple) {
                (Some(t), _) | (None, Some(t)) => match spec_row_data(
                    schema_of(schemas, rel_id),
                    t@,
                ) {
                    Ok(d) => Ok(
                        EventModel {
                            kind: EventKind::Delete,
                            timestamp: now,
                            relation_id: Some(rel_id),
                            last_lsn: wal_end,
                            data: d,
                        },
                    ),
                    Err(te) => Err(StreamError::Tuple(te)),
                },
                (None, None) => Err(StreamError::MissingDeleteTuple),
            }
        } else {
            Err(StreamError::UnknownRelation(rel_id))
        },
        _ => Err(StreamError::UnsupportedLogicalMessage),
    }
}

/// The stream copier's state. `last_lsn` is the highest log position whose
/// record is durable in the sink, used for acknowledgements; it starts at the
/// slot's consistent point. A sealed chunk handed out by a step must be
/// confirmed before the next step.
pub struct StreamState {
    pub writer: ChunkWriter,
    pub last_lsn: u64,
    pub consistent_point: u64,
    pub max_seen: u64,
    pub pending_ack: Option<Option<u64>>,
    pub durable: Ghost<Seq<EventModel>>,
    pub pending_events: Ghost<Seq<EventModel>>,
}

impl StreamState {
    /// The acknowledged position is the consistent point or the position of a
    /// record already durable in the sink; a pending chunk's acknowledgement
    /// candidate is the position of its own last record.
    pub open spec fn wf(self) -> bool {
        &&& self.writer.wf()
        &&& self.writer.high_lsn() <= self.max_seen
        &&& (self.pending_ack is None ==> self.pending_events@.len() == 0)
        &&& (match self.pending_ack {
            Some(Some(l)) => self.pending_events@.len() > 0 && self.pending_events@.last().last_lsn
                == l,
            _ => true,
        })
        &&& (self.last_lsn == self.consistent_point || exists|i: int|
            0 <= i < self.durable@.len() && (#[trigger] self.durable@[i]).last_lsn
                == self.last_lsn)
    }

    /// A fresh copier: nothing buffered, nothing pending, the acknowledged
    /// position at the slot's consistent point, and the next chunk numbered
    /// one past `start_chunk`.
    pub fn new(consistent_point: u64, start_chunk: u32) -> (r: StreamState)
        ensures
            r.wf(),
            r.last_lsn == consistent_point,
            r.consistent_point == consistent_point,
            r.writer.chunk_count == start_chunk,
            r.writer.events@ == Seq::<EventModel>::empty(),
            r.durable@ == Seq::<EventModel>::empty(),
            r.pending_ack is None,
    {
        StreamState {
            writer: ChunkWriter::new(start_chunk),
            last_lsn: consistent_point,
            consistent_point,
            max_seen: 0,
            pending_ack: None,
            durable: Ghost(Seq::empty()),
            pending_events: Ghost(Seq::empty()),
        }
    }

    /// Records that the sealed chunk handed out by the last step is durable:
    /// its records join the durable log, and the acknowledged position moves
    /// to the chunk's own last record where that record carried a position.
    pub fn confirm_flush(&mut self)
        requires
            old(self).wf(),
            old(self).pending_ack is Some,
        ensures
            final(self).wf(),
            final(self).durable@ == old(self).durable@ + old(self).pending_events@,
            final(self).pending_ack is None,
            final(self).pending_events@.len() == 0,
            final(self).writer == old(self).writer,
            final(self).max_seen == old(self).max_seen,
            final(self).consistent_point == old(self).consistent_point,
            final(self).last_lsn == (match old(self).pending_ack {
                Some(Some(l)) => l,
                _ => old(self).last_lsn,
            }),
    {
        let ghost oldd = self.durable@;
        let ghost pend = self.pending_events@;
        match self.pending_ack {
            Some(Some(l)) => {
                self.last_lsn = l;
            },
            _ => {},
        }
        self.durable = Ghost(oldd + pend);
        self.pending_events = Ghost(Seq::empty());
        proof {
            if self.last_lsn != self.consistent_point {
                match self.pending_ack {
                    Some(Some(l)) if l == self.last_lsn => {
                        assert((oldd + pend)[oldd.len() + pend.len() - 1].last_lsn
                            == self.last_lsn);
                    },
                    _ => {
                        if old(self).last_lsn != old(self).consistent_point {
                            let i = choose|i: int|
                                0 <= i < oldd.len() && (#[trigger] oldd[i]).last_lsn == old(
                                    self,
                                ).last_lsn;
                            assert((oldd + pend)[i].last_lsn == self.last_lsn);
                        }
                    },
                }
            }
        }
        self.pending_ack = None;
    }

    /// Appends one event whose record has been built, sealing a chunk when it
    /// is the tenth pending record.
    fn append_event(&mut self, e: Event, wal_end: u64) -> (r: StreamStep)
        requires
            old(self).wf(),
            old(self).pending_ack is None,
            old(self).writer.chunk_count < u32::MAX,
            e@.last_lsn == wal_end,
            wal_end >= old(self).max_seen,
        ensures
            final(self).wf(),
            final(self).last_lsn == old(self).last_lsn,
            final(self).consistent_point == old(self).consistent_point,
            final(self).durable@ == old(self).durable@,
            final(self).max_seen == wal_end,
            if old(self).writer.row_count + 1 < ROWS_PER_DATA_CHUNK {
                &&& r is Quiet
                &&& final(self).pending_ack is None
                &&& final(self).writer.events@ == old(self).writer.events@.push(e@)
                &&& final(self).writer.chunk_count == old(self).writer.chunk_count
            } else {
                &&& (r matches StreamStep::Flush(sealed) && {
                    &&& sealed.number == old(self).writer.chunk_count + 1
                    &&& sealed.bytes@ == crate::event::frames_bytes(
                        old(self).writer.events@.push(e@),
                    )
                    &&& lsns_nondecreasing(old(self).writer.events@.push(e@))
                    &&& old(self).writer.events@.push(e@).len() == ROWS_PER_DATA_CHUNK
                })
                &&& final(self).pending_ack == Some(
                    if wal_end != 0 {
                        Some(wal_end)
                    } else {
                        None
                    },
                )
                &&& final(self).pending_events@ == old(self).writer.events@.push(e@)
                &&& final(self).writer.events@ == Seq::<EventModel>::empty()
                &&& final(self).writer.chunk_count == old(self).writer.chunk_count + 1
            },
    {
        self.max_seen = wal_end;
        let ghost pushed = self.writer.events@.push(e@);
        match self.writer.push_event(e) {
            None => StreamStep::Quiet,
            Some(sealed) => {
                self.pending_ack = Some(
                    if wal_end != 0 {
                        Some(wal_end)
                    } else {
                        None
                    },
                );
                self.pending_events = Ghost(pushed);
                proof {
                    assert(pushed.last().last_lsn == wal_end);
                }
                StreamStep::Flush(sealed)
            },
        }
    }

    /// One decision step of the stream copier, for one upstream message.
    ///
    /// A keepalive asking for a reply yields a standby status update carrying
    /// exactly the acknowledged position. An event at or below the resume
    /// position is dropped, and a dropped commit ends the resume filter's
    /// `skipping_events` phase. A surviving event is framed; the tenth
    /// pending record seals the chunk numbered one past the last. An unknown
    /// relation, a rejected tuple field, a delete without a tuple, and an
    /// unsupported message are fatal and change nothing.
    pub fn handle_message(
        &mut self,
        filter: &mut ResumeFilter,
        schemas: &Vec<TableSchema>,
        msg: ReplMsg,
        now: i64,
    ) -> (r: Result<StreamStep, StreamError>)
        requires
            old(self).wf(),
            old(self).pending_ack is None,
            old(self).writer.chunk_count < u32::MAX,
            rel_ids_unique(schemas@),
            msg matches ReplMsg::XLogData { wal_end, .. } ==> wal_end >= old(self).max_seen,
        ensures
            final(self).wf(),
            final(self).consistent_point == old(self).consistent_point,
            final(self).last_lsn == old(self).last_lsn,
            final(self).durable@ == old(self).durable@,
            match msg {
                ReplMsg::PrimaryKeepAlive { reply } => {
                    &&& *final(self) == *old(self)
                    &&& *final(filter) == *old(filter)
                    &&& (reply ==> (r matches Ok(StreamStep::Standby { lsn }) && lsn == old(
                        self,
                    ).last_lsn))
                    &&& (!reply ==> r matches Ok(StreamStep::Quiet))
                },
                ReplMsg::Unsupported => {
                    &&& r == Err::<StreamStep, StreamError>(
                        StreamError::UnsupportedReplicationMessage,
                    )
                    &&& *final(self) == *old(self)
                    &&& *final(filter) == *old(filter)
                },
                ReplMsg::XLogData { wal_end, data: lm } => {
                    &&& (lm_ignored(lm) ==> *final(self) == *old(self) && *final(filter) == *old(
                        filter,
                    ) && (r matches Ok(StreamStep::Quiet)))
                    &&& (lm is Unsupported ==> *final(self) == *old(self) && *final(filter) == *old(
                        filter,
                    ) && r == Err::<StreamStep, StreamError>(StreamError::UnsupportedLogicalMessage))
                    &&& (match lm_kind(lm) {
                        Some(k) => if spec_should_skip(*old(filter), wal_end) {
                            &&& r matches Ok(StreamStep::Quiet)
                            &&& *final(self) == *old(self)
                            &&& final(filter).active == old(filter).active
                            &&& final(filter).resume_lsn == old(filter).resume_lsn
                            &&& final(filter).skipping_events == (old(filter).skipping_events && k
                                != EventKind::Commit)
                        } else {
                            &&& *final(filter) == *old(filter)
                            &&& (match spec_xlog_event(lm, schemas@, wal_end, now) {
                                Err(e) => {
                                    &&& r == Err::<StreamStep, StreamError>(e)
                                    &&& *final(self) == *old(self)
                                },
                                Ok(ev) => {
                                    &&& final(self).max_seen == wal_end
                                    &&& if old(self).writer.row_count + 1 < ROWS_PER_DATA_CHUNK {
                                        &&& r matches Ok(StreamStep::Quiet)
                                        &&& final(self).pending_ack is None
                                        &&& final(self).writer.events@ == old(
                                            self,
                                        ).writer.events@.push(ev)
                                        &&& final(self).writer.chunk_count == old(
                                            self,
                                        ).writer.chunk_count
                                    } else {
                                        &&& (r matches Ok(StreamStep::Flush(sealed)) && {
                                            &&& sealed.number == old(self).writer.chunk_count + 1
                                            &&& sealed.bytes@ == crate::event::frames_bytes(
                                                old(self).writer.events@.push(ev),
                                            )
                                            &&& lsns_nondecreasing(
                                                old(self).writer.events@.push(ev),
                                            )
                                            &&& old(self).writer.events@.push(ev).len()
                                                == ROWS_PER_DATA_CHUNK
                                        })
                                        &&& final(self).pending_ack == Some(
                                            if wal_end != 0 {
                                                Some(wal_end)
                                            } else {
                                                None
                                            },
                                        )
                                        &&& final(self).pending_events@ == old(
                                            self,
                                        ).writer.events@.push(ev)
                                        &&& final(self).writer.chunk_count == old(
                                            self,
                                        ).writer.chunk_count + 1
                                    }
                                },
                            })
                        },
                        None => true,
                    })
                },
            },
    {
        match msg {
            ReplMsg::PrimaryKeepAlive { reply } => {
                if reply {
                    Ok(StreamStep::Standby { lsn: self.last_lsn })
                } else {
                    Ok(StreamStep::Quiet)
                }
            },
            ReplMsg::Unsupported => Err(StreamError::UnsupportedReplicationMessage),
            ReplMsg::XLogData { wal_end, data: lm } => {
                match lm {
                    LogicalMsg::Origin => Ok(StreamStep::Quiet),
                    LogicalMsg::TypeDesc => Ok(StreamStep::Quiet),
                    LogicalMsg::Truncate => Ok(StreamStep::Quiet),
                    LogicalMsg::Unsupported => Err(StreamError::UnsupportedLogicalMessage),
                    LogicalMsg::Begin(b) => {
                        if filter.should_skip(wal_end, EventKind::Begin) {
                            return Ok(StreamStep::Quiet);
                        }
                        let data = begin_body_to_event_data(&b);
                        let e = Event {
                            kind: EventKind::Begin,
                            timestamp: now,
                            relation_id: None,
                            last_lsn: wal_end,
                            data,
                        };
                        Ok(self.append_event(e, wal_end))
                    },
                    LogicalMsg::Commit(c) => {
                        if filter.should_skip(wal_end, EventKind::Commit) {
                            filter.stop_skipping_events();
                            return Ok(StreamStep::Quiet);
                        }
                        let data = commit_body_to_event_data(&c);
                        let e = Event {
                            kind: EventKind::Commit,
                            timestamp: now,
                            relation_id: None,
                            last_lsn: wal_end,
                            data,
                        };
                        Ok(self.append_event(e, wal_end))
                    },
                    LogicalMsg::Relation(rd) => {
                        if filter.should_skip(wal_end, EventKind::Relation) {
                            return Ok(StreamStep::Quiet);
                        }
                        match find_schema(schemas, rd.rel_id) {
                            None => Err(StreamError::UnknownRelation(rd.rel_id)),
                            Some(_schema) => {
                                let data = relation_body_to_event_data(&rd);
                                let e = Event {
                                    kind: EventKind::Relation,
                                    timestamp: now,
                                    relation_id: Some(rd.rel_id),
                                    last_lsn: wal_end,
                                    data,
                                };
                                Ok(self.append_event(e, wal_end))
                            },
                        }
                    },
                    LogicalMsg::Insert { rel_id, tuple } => {
                        if filter.should_skip(wal_end, EventKind::Insert) {
                            return Ok(StreamStep::Quiet);
                        }
                        match find_schema(schemas, rel_id) {
                            None => Err(StreamError::UnknownRelation(rel_id)),
                            Some(schema) => {
                                proof {
                                    lemma_found_is_schema_of(schemas@, rel_id, *schema);
                                }
                                match get_data(schema, &tuple) {
                                    Err(te) => Err(StreamError::Tuple(te)),
                                    Ok(data) => {
                                        let e = Event {
                                            kind: EventKind::Insert,
                                            timestamp: now,
                                            relation_id: Some(rel_id),
                                            last_lsn: wal_end,
                                            data,
                                        };
                                        Ok(self.append_event(e, wal_end))
                                    },
                                }
                            },
                        }
                    },
                    LogicalMsg::Update { rel_id, new_tuple } => {
                        if filter.should_skip(wal_end, EventKind::Update) {
                            return Ok(StreamStep::Quiet);
                        }
                        match find_schema(schemas, rel_id) {
                            None => Err(StreamError::UnknownRelation(rel_id)),
                            Some(schema) => {
                                proof {
                                    lemma_found_is_schema_of(schemas@, rel_id, *schema);
                                }
                                match get_data(schema, &new_tuple) {
                                    Err(te) => Err(StreamError::Tuple(te)),
                                    Ok(data) => {
                                        let e = Event {
                                            kind: EventKind::Update,
                                            timestamp: now,
                                            relation_id: Some(rel_id),
                                            last_lsn: wal_end,
                                            data,
                                        };
                                        Ok(self.append_event(e, wal_end))
                                    },
                                }
                            },
                        }
                    },
                    LogicalMsg::Delete { rel_id, key_tuple, old_tuple } => {
                        if filter.should_skip(wal_end, EventKind::Delete) {
                            return Ok(StreamStep::Quiet);
                        }
                        match find_schema(schemas, rel_id) {
                            None => Err(StreamError::UnknownRelation(rel_id)),
                            Some(schema) => {
                                proof {
                                    lemma_found_is_schema_of(schemas@, rel_id, *schema);
                                }
                                let tuple = match key_tuple {
                                    Some(t) => t,
                                    None => match old_tuple {
                                        Some(t) => t,
                                        None => {
                                            return Err(StreamError::MissingDeleteTuple);
                                        },
                                    },
                                };
                                match get_data(schema, &tuple) {
                                    Err(te) => Err(StreamError::Tuple(te)),
                                    Ok(data) => {
                                        let e = Event {
                                            kind: EventKind::Delete,
                                            timestamp: now,
                                            relation_id: Some(rel_id),
                                            last_lsn: wal_end,
                                            data,
                                        };
                                        Ok(self.append_event(e, wal_end))
                                    },
                                }
                            },
                        }
                    },
                }
            },
        }
    }
}

/// A schema found by its relation id is the schema of that relation id,
/// because relation ids are unique.
proof fn lemma_found_is_schema_of(schemas: Seq<TableSchema>, rel_id: u32, found: TableSchema)
    requires
        rel_ids_unique(schemas),
        spec_has_relation(schemas, rel_id),
        found.relation_id == rel_id,
        exists|i: int| 0 <= i < schemas.len() && found == #[trigger] schemas[i],
    ensures
        found == schema_of(schemas, rel_id),
{
    let i = choose|i: int| 0 <= i < schemas.len() && found == #[trigger] schemas[i];
    let j = spec_relation_index(schemas, rel_id);
    assert(0 <= j < schemas.len() && schemas[j].relation_id == rel_id);
    if i != j {
        assert(schemas[i].relation_id != schemas[j].relation_id);
    }
}

} // verus!
