//! Laws that relate the pieces: acknowledgements never outrun durable
//! records, resumption delivers no record twice, and snapshot keys never
//! touch stream keys.

use vstd::prelude::*;
use crate::event::EventModel;
use crate::convert::{all_digits, dec_digit, digits_val};
use crate::keys::{
    spec_table_chunk_key, spec_done_object_path, spec_realtime_chunk_key, spec_table_copy_prefix,
    u32_dec_chars, lemma_u32_dec_chars_val,
};
use crate::resume::{ResumeFilter, spec_should_skip};
use crate::schema::Table;
use crate::stream::StreamState;

verus! {

broadcast use vstd::std_specs::vec::group_vec_axioms, vstd::seq::group_seq_axioms;

/// Law: a standby status update carries the copier's acknowledged position,
/// and in every reachable state that position is the slot's consistent point
/// or the position of a record already durable in a stream chunk — never a
/// position the sink has not seen.
pub proof fn lemma_ack_never_outruns_durability(s: StreamState)
    requires
        s.wf(),
    ensures
        s.last_lsn == s.consistent_point || exists|i: int|
            0 <= i < s.durable@.len() && (#[trigger] s.durable@[i]).last_lsn == s.last_lsn,
{
}

/// The records of a replayed stream that survive the resume filter.
pub open spec fn passes_filter(f: ResumeFilter, replay: Seq<EventModel>) -> Seq<EventModel> {
    replay.filter(|e: EventModel| !spec_should_skip(f, e.last_lsn))
}

/// Law: after a restart with an active resume filter, a record survives the
/// filter exactly when its position lies above the resume position; records
/// already durable sit at or below it, so no record is delivered twice and
/// the durable log followed by the surviving records keeps the upstream
/// order of positions.
pub proof fn lemma_resume_no_duplicates(
    f: ResumeFilter,
    durable: Seq<EventModel>,
    replay: Seq<EventModel>,
)
    requires
        f.active,
        forall|i: int|
            0 <= i < durable.len() ==> (#[trigger] durable[i]).last_lsn <= f.resume_lsn,
    ensures
        forall|j: int|
            0 <= j < passes_filter(f, replay).len() ==> (#[trigger] passes_filter(f, replay)[j]).last_lsn
                > f.resume_lsn,
        forall|i: int, j: int|
            0 <= i < durable.len() && 0 <= j < passes_filter(f, replay).len() ==> (
            #[trigger] durable[i]).last_lsn < (#[trigger] passes_filter(f, replay)[j]).last_lsn,
{
    let pred = |e: EventModel| !spec_should_skip(f, e.last_lsn);
    assert forall|j: int| 0 <= j < passes_filter(f, replay).len() implies (
    #[trigger] passes_filter(f, replay)[j]).last_lsn > f.resume_lsn by {
        replay.lemma_filter_pred(pred, j);
    }
}

/// Law: a run restarted against an unchanged upstream appends nothing. After
/// a graceful shutdown the resume position is the last committed record, so a
/// replay in which every record sits at or below it is dropped whole, and no
/// new chunk is ever started.
pub proof fn lemma_unchanged_upstream_appends_nothing(f: ResumeFilter, replay: Seq<EventModel>)
    requires
        f.active,
        forall|i: int| 0 <= i < replay.len() ==> (#[trigger] replay[i]).last_lsn <= f.resume_lsn,
    ensures
        passes_filter(f, replay).len() == 0,
    decreases replay.len(),
{
    reveal(Seq::filter);
    if replay.len() > 0 {
        assert(forall|i: int|
            0 <= i < replay.drop_last().len() ==> (#[trigger] replay.drop_last()[i]).last_lsn
                <= f.resume_lsn);
        lemma_unchanged_upstream_appends_nothing(f, replay.drop_last());
        assert(replay.last().last_lsn <= f.resume_lsn);
    }
}

/// Law: the objects of one table's snapshot and the stream's chunk objects
/// live under different keys, so redoing a table's snapshot never touches
/// stream progress, and streaming never touches a snapshot.
pub proof fn lemma_snapshot_stream_keys_disjoint(t: Table, n: u32, m: u32)
    ensures
        spec_table_chunk_key(t, n) != spec_realtime_chunk_key(m),
        spec_done_object_path(t) != spec_realtime_chunk_key(m),
{
    reveal_strlit("table_copies/");
    reveal_strlit("realtime_changes/");
    assert(spec_table_chunk_key(t, n)[0] == 't');
    assert(spec_done_object_path(t)[0] == 't');
    assert(spec_realtime_chunk_key(m)[0] == 'r');
}

/// Law: distinct stream chunk numbers name distinct objects, so no two
/// stream chunk writes ever touch the same key.
pub proof fn lemma_realtime_keys_injective(a: u32, b: u32)
    requires
        spec_realtime_chunk_key(a) == spec_realtime_chunk_key(b),
    ensures
        a == b,
{
    let p = "realtime_changes/"@;
    lemma_u32_dec_chars_val(a);
    lemma_u32_dec_chars_val(b);
    assert(u32_dec_chars(a) =~= u32_dec_chars(b)) by {
        assert(spec_realtime_chunk_key(a).len() == p.len() + u32_dec_chars(a).len());
        assert(spec_realtime_chunk_key(b).len() == p.len() + u32_dec_chars(b).len());
        assert forall|i: int| 0 <= i < u32_dec_chars(a).len() implies #[trigger] u32_dec_chars(a)[i]
            == u32_dec_chars(b)[i] by {
            assert(spec_realtime_chunk_key(a)[p.len() + i] == u32_dec_chars(a)[i]);
            assert(spec_realtime_chunk_key(b)[p.len() + i] == u32_dec_chars(b)[i]);
        }
    }
}

/// Law: within one table's snapshot, distinct chunk numbers name distinct
/// objects, and no chunk object is the `done` marker: the numbers written
/// for a finished copy are exactly the contiguous run the copier sealed,
/// with no hole and no orphan above it.
pub proof fn lemma_snapshot_keys_distinct(t: Table, a: u32, b: u32)
    ensures
        a != b ==> spec_table_chunk_key(t, a) != spec_table_chunk_key(t, b),
        spec_table_chunk_key(t, a) != spec_done_object_path(t),
{
    let p = spec_table_copy_prefix(t) + "/"@;
    lemma_u32_dec_chars_val(a);
    lemma_u32_dec_chars_val(b);
    assert(spec_table_chunk_key(t, a) =~= p + u32_dec_chars(a));
    assert(spec_table_chunk_key(t, b) =~= p + u32_dec_chars(b));
    if spec_table_chunk_key(t, a) == spec_table_chunk_key(t, b) {
        assert(u32_dec_chars(a) =~= u32_dec_chars(b)) by {
            assert((p + u32_dec_chars(a)).len() == p.len() + u32_dec_chars(a).len());
            assert((p + u32_dec_chars(b)).len() == p.len() + u32_dec_chars(b).len());
            assert forall|i: int|
                0 <= i < u32_dec_chars(a).len() implies #[trigger] u32_dec_chars(a)[i]
                == u32_dec_chars(b)[i] by {
                assert((p + u32_dec_chars(a))[p.len() + i] == u32_dec_chars(a)[i]);
                assert((p + u32_dec_chars(b))[p.len() + i] == u32_dec_chars(b)[i]);
            }
        }
        assert(a == b);
    }
    proof_strlits();
    assert(spec_done_object_path(t) =~= p + "done"@);
    if spec_table_chunk_key(t, a) == spec_done_object_path(t) {
        assert((p + u32_dec_chars(a)).len() == p.len() + u32_dec_chars(a).len());
        assert((p + "done"@).len() == p.len() + "done"@.len());
        assert(u32_dec_chars(a).len() == "done"@.len());
        assert(u32_dec_chars(a) =~= "done"@) by {
            assert forall|i: int|
                0 <= i < u32_dec_chars(a).len() implies #[trigger] u32_dec_chars(a)[i]
                == "done"@[i] by {
                assert((p + u32_dec_chars(a))[p.len() + i] == u32_dec_chars(a)[i]);
                assert((p + "done"@)[p.len() + i] == "done"@[i]);
            }
        }
        assert(dec_digit(u32_dec_chars(a)[0]));
        reveal_strlit("done");
        assert(u32_dec_chars(a)[0] == 'd');
        assert(false);
    }
}

/// The pieces of the `done` marker's name.
proof fn proof_strlits()
    ensures
        "/done"@ == "/"@ + "done"@,
{
    reveal_strlit("/done");
    reveal_strlit("/");
    reveal_strlit("done");
    assert("/done"@ =~= "/"@ + "done"@);
}

} // verus!

