//! The table copier: for each published table whose `done` marker is absent,
//! any partial copy is discarded wholesale, a schema record opens chunk one,
//! rows follow as insert records at log position zero, a final short chunk
//! flushes the remainder, and the empty `done` marker is written last.

use vstd::prelude::*;
use crate::chunk::{ChunkWriter, SealedChunk};
use crate::convert::{TupleCell, TupleError, spec_schema_event_data, spec_row_data,
    table_schema_to_event_data, get_data};
use crate::event::{Event, EventKind, EventModel, frames_bytes};
use crate::keys::{spec_done_object_path, get_done_object_path};
use crate::schema::TableSchema;

verus! {

broadcast use vstd::std_specs::vec::group_vec_axioms, vstd::seq::group_seq_axioms;

/// What to do about one table before copying it: skip it because its `done`
/// marker is present, or discard every object of a previous partial copy and
/// copy it afresh.
pub enum TableCopyPlan {
    Skip,
    Redo { delete_keys: Vec<String> },
}

/// Decides one table's fate from the sink: present `done` marker means the
/// copy is complete and nothing is touched; otherwise every key found under
/// the table's prefix is deleted and the copy is redone. Snapshots are not
/// resumable at row granularity because row order is not stable across
/// sessions.
pub fn plan_table_copy(done_present: bool, existing_keys: Vec<String>) -> (r: TableCopyPlan)
    ensures
        done_present ==> r is Skip,
        !done_present ==> (r matches TableCopyPlan::Redo { delete_keys } && delete_keys@
            == existing_keys@),
{
    if done_present {
        TableCopyPlan::Skip
    } else {
        TableCopyPlan::Redo { delete_keys: existing_keys }
    }
}

/// The schema event that opens a table's snapshot.
pub open spec fn spec_schema_event(schema: TableSchema, now: i64) -> EventModel {
    EventModel {
        kind: EventKind::Schema,
        timestamp: now,
        relation_id: Some(schema.relation_id),
        last_lsn: 0,
        data: spec_schema_event_data(schema),
    }
}

/// A snapshot row as an insert event: log position zero, since the rows
/// precede the stream's consistent point.
pub open spec fn spec_snapshot_row_event(schema: TableSchema, data: crate::value::ValModel, now: i64) -> EventModel {
    EventModel {
        kind: EventKind::Insert,
        timestamp: now,
        relation_id: Some(schema.relation_id),
        last_lsn: 0,
        data,
    }
}

/// One table's copy in progress. The ghost `chunks` log holds the records of
/// each sealed chunk, in sealing order; chunk `i` of the log was numbered
/// `i + 1`, so the numbers written for one table are contiguous from one.
pub struct TableCopyState {
    pub schema: TableSchema,
    pub writer: ChunkWriter,
    pub chunks: Ghost<Seq<Seq<EventModel>>>,
}

impl TableCopyState {
    /// Chunks seal in order under contiguous numbers starting at one: the
    /// chunk logged at index `i` was numbered `i + 1`.
    pub open spec fn wf(self) -> bool {
        &&& self.writer.wf()
        &&& self.writer.chunk_count == self.chunks@.len()
        &&& self.writer.high_lsn() == 0
    }

    /// Opens a table's copy: the schema event becomes the first record of
    /// chunk one.
    pub fn new(schema: TableSchema, now: i64) -> (r: TableCopyState)
        ensures
            r.wf(),
            r.writer.events@ == seq![spec_schema_event(r.schema, now)],
            r.chunks@ == Seq::<Seq<EventModel>>::empty(),
            r.schema == schema,
    {
        let data = table_schema_to_event_data(&schema);
        let e = Event {
            kind: EventKind::Schema,
            timestamp: now,
            relation_id: Some(schema.relation_id),
            last_lsn: 0,
            data,
        };
        let mut writer = ChunkWriter::new(0);
        let sealed = writer.push_event(e);
        proof {
            assert(sealed is None);
            assert(Seq::<EventModel>::empty().push(e@) =~= seq![e@]);
        }
        TableCopyState { schema, writer, chunks: Ghost(Seq::empty()) }
    }

    /// Appends one row of the table as an insert record; the tenth pending
    /// record seals the next numbered chunk. A rejected row is fatal and
    /// changes nothing.
    pub fn push_row(&mut self, cells: &Vec<TupleCell>, now: i64) -> (r: Result<
        Option<SealedChunk>,
        TupleError,
    >)
        requires
            old(self).wf(),
            old(self).writer.chunk_count < u32::MAX,
        ensures
            final(self).wf(),
            final(self).schema == old(self).schema,
            match r {
                Err(te) => spec_row_data(old(self).schema, cells@) == Err::<
                    crate::value::ValModel,
                    TupleError,
                >(te) && *final(self) == *old(self),
                Ok(step) => {
                    &&& spec_row_data(old(self).schema, cells@) matches Ok(d) && {
                        let ev = spec_snapshot_row_event(old(self).schema, d, now);
                        match step {
                            None => {
                                &&& final(self).writer.events@ == old(self).writer.events@.push(ev)
                                &&& final(self).chunks@ == old(self).chunks@
                            },
                            Some(sealed) => {
                                &&& sealed.number == old(self).chunks@.len() + 1
                                &&& sealed.bytes@ == frames_bytes(
                                    old(self).writer.events@.push(ev),
                                )
                                &&& final(self).chunks@ == old(self).chunks@.push(
                                    old(self).writer.events@.push(ev),
                                )
                                &&& final(self).writer.events@ == Seq::<EventModel>::empty()
                            },
                        }
                    }
                },
            },
    {
        let data = match get_data(&self.schema, cells) {
            Ok(d) => d,
            Err(te) => {
                return Err(te);
            },
        };
        let e = Event {
            kind: EventKind::Insert,
            timestamp: now,
            relation_id: Some(self.schema.relation_id),
            last_lsn: 0,
            data,
        };
        let ghost pushed = self.writer.events@.push(e@);
        match self.writer.push_event(e) {
            None => Ok(None),
            Some(sealed) => {
                let ghost oldc = self.chunks@;
                self.chunks = Ghost(oldc.push(pushed));
                Ok(Some(sealed))
            },
        }
    }

    /// Ends the table's copy: the pending records, if any, flush as a final
    /// short chunk numbered one past the last sealed chunk, and the empty
    /// `done` marker is written only after every chunk. The returned actions
    /// are performed in order: final chunk first, marker last.
    pub fn finish(&mut self) -> (r: (Option<SealedChunk>, String))
        requires
            old(self).wf(),
            old(self).writer.chunk_count < u32::MAX,
        ensures
            final(self).wf(),
            r.1@ == spec_done_object_path(old(self).schema.table),
            old(self).writer.events@.len() == 0 ==> r.0 is None && final(self).chunks@ == old(
                self,
            ).chunks@,
            old(self).writer.events@.len() > 0 ==> (r.0 matches Some(sealed) && {
                &&& sealed.number == old(self).chunks@.len() + 1
                &&& sealed.bytes@ == frames_bytes(old(self).writer.events@)
                &&& final(self).chunks@ == old(self).chunks@.push(old(self).writer.events@)
            }),
    {
        let done_key = get_done_object_path(&self.schema.table);
        if self.writer.row_count > 0 {
            let ghost pend = self.writer.events@;
            let bytes = self.writer.take_buf();
            let number = self.writer.chunk_count + 1;
            let ghost oldc = self.chunks@;
            self.chunks = Ghost(oldc.push(pend));
            self.writer.chunk_count = number;
            proof {
                assert(self.writer.wf());
            }
            (Some(SealedChunk { number, bytes }), done_key)
        } else {
            proof {
                assert(self.writer.events@.len() == 0);
            }
            (None, done_key)
        }
    }
}

} // verus!
