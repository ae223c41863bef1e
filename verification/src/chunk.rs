//! The chunk writer shared by the table copier and the stream copier: framed
//! records accumulate in a buffer; every tenth record seals the buffer as the
//! next numbered chunk. Within a chunk, record log positions never decrease.

use vstd::prelude::*;
use crate::event::{Event, EventModel, event_wf, frame_bytes, frames_bytes, append_frame,
    lemma_frames_bytes_snoc};

verus! {

broadcast use vstd::std_specs::vec::group_vec_axioms, vstd::seq::group_seq_axioms;

/// Records per chunk. Only the terminal chunk of a table snapshot may hold
/// fewer.
pub const ROWS_PER_DATA_CHUNK: u32 = 10;

/// Whether the log positions of a run of events never decrease.
pub open spec fn lsns_nondecreasing(es: Seq<EventModel>) -> bool {
    forall|i: int, j: int| 0 <= i <= j < es.len() ==> (#[trigger] es[i]).last_lsn <= (
    #[trigger] es[j]).last_lsn
}

/// A sealed chunk: its number and its bytes, ready to be put to the sink.
pub struct SealedChunk {
    pub number: u32,
    pub bytes: Vec<u8>,
}

/// Accumulates framed records and seals every tenth one into a numbered
/// chunk. `chunk_count` is the number of the last chunk sealed.
pub struct ChunkWriter {
    pub row_count: u32,
    pub chunk_count: u32,
    pub buf: Vec<u8>,
    pub events: Ghost<Seq<EventModel>>,
}

impl ChunkWriter {
    /// The buffer holds exactly the framed records of the pending events, in
    /// order, fewer than a chunk's worth, with non-decreasing log positions.
    pub open spec fn wf(self) -> bool {
        &&& self.buf@ == frames_bytes(self.events@)
        &&& self.events@.len() == self.row_count
        &&& self.row_count < ROWS_PER_DATA_CHUNK
        &&& lsns_nondecreasing(self.events@)
        &&& forall|i: int| 0 <= i < self.events@.len() ==> event_wf(#[trigger] self.events@[i])
    }

    /// The log position of the newest pending record, or zero with none.
    pub open spec fn high_lsn(self) -> u64 {
        if self.events@.len() == 0 {
            0
        } else {
            self.events@.last().last_lsn
        }
    }

    /// An empty writer that will seal its first chunk as number `start + 1`.
    pub fn new(start: u32) -> (r: ChunkWriter)
        ensures
            r.wf(),
            r.chunk_count == start,
            r.events@ == Seq::<EventModel>::empty(),
            r.buf@ == Seq::<u8>::empty(),
    {
        let r = ChunkWriter {
            row_count: 0,
            chunk_count: start,
            buf: Vec::new(),
            events: Ghost(Seq::empty()),
        };
        proof {
            assert(frames_bytes(Seq::<EventModel>::empty()) == Seq::<u8>::empty());
        }
        r
    }

    /// Appends one framed record. When it is the tenth, returns the sealed
    /// chunk, numbered one past the previous chunk, holding exactly the ten
    /// framed records in order; their log positions never decrease.
    pub fn push_event(&mut self, e: Event) -> (r: Option<SealedChunk>)
        requires
            old(self).wf(),
            old(self).chunk_count < u32::MAX,
            e@.last_lsn >= old(self).high_lsn(),
        ensures
            final(self).wf(),
            event_wf(e@),
            match r {
                None => {
                    &&& final(self).events@ == old(self).events@.push(e@)
                    &&& final(self).chunk_count == old(self).chunk_count
                    &&& final(self).row_count == old(self).row_count + 1
                    &&& final(self).high_lsn() == e@.last_lsn
                },
                Some(sealed) => {
                    &&& sealed.number == old(self).chunk_count + 1
                    &&& final(self).chunk_count == old(self).chunk_count + 1
                    &&& sealed.bytes@ == frames_bytes(old(self).events@.push(e@))
                    &&& old(self).events@.push(e@).len() == ROWS_PER_DATA_CHUNK
                    &&& lsns_nondecreasing(old(self).events@.push(e@))
                    &&& old(self).events@.push(e@).last() == e@
                    &&& final(self).events@ == Seq::<EventModel>::empty()
                    &&& final(self).row_count == 0
                },
            },
    {
        let ghost olds = self.events@;
        append_frame(&mut self.buf, e);
        proof {
            lemma_frames_bytes_snoc(olds, e@);
            assert forall|i: int, j: int| 0 <= i <= j < olds.push(e@).len() implies (
            #[trigger] olds.push(e@)[i]).last_lsn <= (#[trigger] olds.push(e@)[j]).last_lsn by {
                if j < olds.len() {
                } else {
                    if i < olds.len() {
                        assert(olds[i].last_lsn <= olds.last().last_lsn);
                    }
                }
            }
        }
        self.events = Ghost(olds.push(e@));
        self.row_count = self.row_count + 1;
        if self.row_count == ROWS_PER_DATA_CHUNK {
            self.chunk_count = self.chunk_count + 1;
            let mut sealed_bytes: Vec<u8> = Vec::new();
            core::mem::swap(&mut sealed_bytes, &mut self.buf);
            self.row_count = 0;
            let ghost sealed_events = self.events@;
            self.events = Ghost(Seq::empty());
            proof {
                assert(frames_bytes(Seq::<EventModel>::empty()) == Seq::<u8>::empty());
            }
            Some(SealedChunk { number: self.chunk_count, bytes: sealed_bytes })
        } else {
            None
        }
    }

    /// The buffer's bytes, taken out to flush a final short chunk; the writer
    /// is left empty.
    pub fn take_buf(&mut self) -> (r: Vec<u8>)
        requires
            old(self).wf(),
        ensures
            final(self).wf(),
            r@ == frames_bytes(old(self).events@),
            final(self).events@ == Seq::<EventModel>::empty(),
            final(self).row_count == 0,
            final(self).chunk_count == old(self).chunk_count,
    {
        let mut out: Vec<u8> = Vec::new();
        core::mem::swap(&mut out, &mut self.buf);
        self.row_count = 0;
        self.events = Ghost(Seq::empty());
        proof {
            assert(frames_bytes(Seq::<EventModel>::empty()) == Seq::<u8>::empty());
        }
        out
    }
}

} // verus!
