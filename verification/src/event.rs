//! Replication events and their framed encoding. An event is encoded as a
//! five-element array value (kind code, timestamp, optional relation id, log
//! position, payload), and a record is that encoding prefixed by its
//! big-endian 64-bit byte length. `parse_last` recovers the last complete
//! record of a chunk, ignoring a torn tail.

use vstd::prelude::*;
use crate::bytes_be::{u64_be_bytes, u64_of_be, push_u64_be, read_u64_be, lemma_u64_be_round_trip};
use crate::codec::{enc_val, dec_val, encode_value, decode_value, lemma_dec_enc_val};
use crate::value::{Value, ValModel, val_wf, val_view, vals_view, lemma_vals_view_index};

verus! {

broadcast use vstd::std_specs::vec::group_vec_axioms, vstd::seq::group_seq_axioms;

/// The kind of a replication event. `Schema` is synthesized during the
/// initial table copy; the others mirror upstream logical messages.
#[derive(Debug, Clone, Copy, PartialEq, Eq, Structural)]
pub enum EventKind {
    Schema,
    Begin,
    Commit,
    Insert,
    Update,
    Delete,
    Relation,
}

/// One replication event. `timestamp` is microseconds of wall-clock UTC since
/// the Unix epoch; `last_lsn` is the upstream log position that produced the
/// event, with zero meaning unknown.
#[derive(Debug)]
pub struct Event {
    pub kind: EventKind,
    pub timestamp: i64,
    pub relation_id: Option<u32>,
    pub last_lsn: u64,
    pub data: Value,
}

/// The mathematical shape of an event.
pub struct EventModel {
    pub kind: EventKind,
    pub timestamp: i64,
    pub relation_id: Option<u32>,
    pub last_lsn: u64,
    pub data: ValModel,
}

impl View for Event {
    type V = EventModel;

    open spec fn view(&self) -> EventModel {
        EventModel {
            kind: self.kind,
            timestamp: self.timestamp,
            relation_id: self.relation_id,
            last_lsn: self.last_lsn,
            data: self.data@,
        }
    }
}

/// The numeric code of an event kind in the encoded form.
pub open spec fn kind_code(k: EventKind) -> i128 {
    match k {
        EventKind::Schema => 0,
        EventKind::Begin => 1,
        EventKind::Commit => 2,
        EventKind::Insert => 3,
        EventKind::Update => 4,
        EventKind::Delete => 5,
        EventKind::Relation => 6,
    }
}

/// The event kind of a numeric code, if the code is one.
pub open spec fn kind_of_code(c: i128) -> Option<EventKind> {
    if c == 0 {
        Some(EventKind::Schema)
    } else if c == 1 {
        Some(EventKind::Begin)
    } else if c == 2 {
        Some(EventKind::Commit)
    } else if c == 3 {
        Some(EventKind::Insert)
    } else if c == 4 {
        Some(EventKind::Update)
    } else if c == 5 {
        Some(EventKind::Delete)
    } else if c == 6 {
        Some(EventKind::Relation)
    } else {
        None
    }
}

/// The numeric code of an event kind.
pub fn kind_to_code(k: EventKind) -> (c: i128)
    ensures
        c == kind_code(k),
{
    match k {
        EventKind::Schema => 0,
        EventKind::Begin => 1,
        EventKind::Commit => 2,
        EventKind::Insert => 3,
        EventKind::Update => 4,
        EventKind::Delete => 5,
        EventKind::Relation => 6,
    }
}

/// The event kind of a numeric code.
pub fn code_to_kind(c: i128) -> (k: Option<EventKind>)
    ensures
        k == kind_of_code(c),
{
    if c == 0 {
        Some(EventKind::Schema)
    } else if c == 1 {
        Some(EventKind::Begin)
    } else if c == 2 {
        Some(EventKind::Commit)
    } else if c == 3 {
        Some(EventKind::Insert)
    } else if c == 4 {
        Some(EventKind::Update)
    } else if c == 5 {
        Some(EventKind::Delete)
    } else if c == 6 {
        Some(EventKind::Relation)
    } else {
        None
    }
}

/// An event as the five-element array value that is written to a chunk.
pub open spec fn event_as_value(e: EventModel) -> ValModel {
    ValModel::Array(
        seq![
            ValModel::Int(kind_code(e.kind)),
            ValModel::Int(e.timestamp as i128),
            (match e.relation_id {
                Option::None => ValModel::Null,
                Option::Some(r) => ValModel::Int(r as i128),
            }),
            ValModel::Int(e.last_lsn as i128),
            e.data,
        ],
    )
}

/// The event read back from a value, if the value has the encoded shape.
pub open spec fn event_of_value(v: ValModel) -> Option<EventModel> {
    match v {
        ValModel::Array(s) => if s.len() == 5 {
            match (s[0], s[1], s[2], s[3]) {
                (ValModel::Int(code), ValModel::Int(ts), rel, ValModel::Int(lsn)) => {
                    let relid = match rel {
                        ValModel::Null => Some(Option::<u32>::None),
                        ValModel::Int(r) => if 0 <= r < 0x1_0000_0000 {
                            Some(Option::Some(r as u32))
                        } else {
                            None
                        },
                        _ => None,
                    };
                    match (kind_of_code(code), relid) {
                        (Some(kind), Some(relation_id)) => if i64::MIN <= ts <= i64::MAX && 0 <= lsn
                            < 0x1_0000_0000_0000_0000 {
                            Some(
                                EventModel {
                                    kind,
                                    timestamp: ts as i64,
                                    relation_id,
                                    last_lsn: lsn as u64,
                                    data: s[4],
                                },
                            )
                        } else {
                            None
                        },
                        _ => None,
                    }
                },
                _ => None,
            }
        } else {
            None
        },
        _ => None,
    }
}

/// Law: reading an event back from its value form yields the event.
pub proof fn lemma_event_value_round_trip(e: EventModel)
    ensures
        event_of_value(event_as_value(e)) == Some(e),
{
    let s = match event_as_value(e) {
        ValModel::Array(s) => s,
        _ => Seq::empty(),
    };
    assert(s.len() == 5);
    match e.relation_id {
        Option::None => {}
        Option::Some(r) => {
            assert(0 <= (r as i128) && (r as i128) < 0x1_0000_0000);
        }
    }
}

/// The encoded bytes of an event.
pub open spec fn enc_event(e: EventModel) -> Seq<u8> {
    enc_val(event_as_value(e))
}

/// An event whose payload and encoding fit the record format's length fields.
pub open spec fn event_wf(e: EventModel) -> bool {
    val_wf(e.data) && enc_event(e).len() < 0x1_0000_0000_0000_0000
}

/// One framed record: the byte length of the encoded event, then the bytes.
pub open spec fn frame_bytes(e: EventModel) -> Seq<u8> {
    u64_be_bytes(enc_event(e).len() as u64) + enc_event(e)
}

/// A run of framed records, in order.
pub open spec fn frames_bytes(s: Seq<EventModel>) -> Seq<u8>
    decreases s,
{
    if s.len() == 0 {
        Seq::empty()
    } else {
        frame_bytes(s[0]) + frames_bytes(s.drop_first())
    }
}

/// Appending one event appends its framed record.
pub proof fn lemma_frames_bytes_snoc(s: Seq<EventModel>, e: EventModel)
    ensures
        frames_bytes(s.push(e)) == frames_bytes(s) + frame_bytes(e),
    decreases s,
{
    assert(s.push(e)[0] == if s.len() == 0 { e } else { s[0] });
    if s.len() == 0 {
        assert(s.push(e).drop_first() =~= Seq::<EventModel>::empty());
        assert(frames_bytes(s.push(e)) == frame_bytes(e) + frames_bytes(
            Seq::<EventModel>::empty(),
        ));
        assert(frames_bytes(Seq::<EventModel>::empty()) == Seq::<u8>::empty());
        assert(frames_bytes(s) == Seq::<u8>::empty());
        assert(frames_bytes(s.push(e)) =~= frames_bytes(s) + frame_bytes(e));
    } else {
        lemma_frames_bytes_snoc(s.drop_first(), e);
        assert(s.push(e).drop_first() =~= s.drop_first().push(e));
        assert(frames_bytes(s.push(e)) =~= frames_bytes(s) + frame_bytes(e));
    }
}

/// Turns an event into the value form that is encoded.
pub fn event_to_value(e: Event) -> (v: Value)
    ensures
        v@ == event_as_value(e@),
{
    let mut elems: Vec<Value> = Vec::new();
    elems.push(Value::Int(kind_to_code(e.kind)));
    elems.push(Value::Int(e.timestamp as i128));
    match e.relation_id {
        Option::None => elems.push(Value::Null),
        Option::Some(r) => elems.push(Value::Int(r as i128)),
    }
    elems.push(Value::Int(e.last_lsn as i128));
    elems.push(e.data);
    proof {
        lemma_vals_view_index(elems@);
        assert(vals_view(elems@).len() == 5);
        assert(vals_view(elems@)[0] == val_view(elems@[0]));
        assert(vals_view(elems@)[1] == val_view(elems@[1]));
        assert(vals_view(elems@)[2] == val_view(elems@[2]));
        assert(vals_view(elems@)[3] == val_view(elems@[3]));
        assert(vals_view(elems@)[4] == val_view(elems@[4]));
        assert(vals_view(elems@) =~= match event_as_value(e@) {
            ValModel::Array(s) => s,
            _ => Seq::empty(),
        });
    }
    Value::Array(elems)
}

/// Reads an event back from its value form.
pub fn value_to_event(v: Value) -> (r: Option<Event>)
    ensures
        match r {
            Some(ev) => event_of_value(v@) == Some(ev@),
            None => event_of_value(v@) is None,
        },
{
    proof {
        match v@ {
            ValModel::Array(s) => {
                lemma_vals_view_index(
                    match v {
                        Value::Array(ref a) => a@,
                        _ => Seq::empty(),
                    },
                );
            }
            _ => {}
        }
    }
    match v {
        Value::Array(mut a) => {
            proof {
                lemma_vals_view_index(a@);
            }
            if a.len() != 5 {
                return None;
            }
            let data = a.pop().unwrap();
            let lsn_v = a.pop().unwrap();
            let rel_v = a.pop().unwrap();
            let ts_v = a.pop().unwrap();
            let code_v = a.pop().unwrap();
            let code: i128 = match code_v {
                Value::Int(c) => c,
                _ => {
                    return None;
                },
            };
            let ts: i128 = match ts_v {
                Value::Int(t) => t,
                _ => {
                    return None;
                },
            };
            let lsn: i128 = match lsn_v {
                Value::Int(l) => l,
                _ => {
                    return None;
                },
            };
            let relation_id: Option<u32> = match rel_v {
                Value::Null => None,
                Value::Int(r) => {
                    if 0 <= r && r < 0x1_0000_0000 {
                        Some(r as u32)
                    } else {
                        return None;
                    }
                },
                _ => {
                    return None;
                },
            };
            let kind = match code_to_kind(code) {
                Some(k) => k,
                None => {
                    return None;
                },
            };
            if i64::MIN as i128 <= ts && ts <= i64::MAX as i128 && 0 <= lsn && lsn
                < 0x1_0000_0000_0000_0000 {
                Some(
                    Event {
                        kind,
                        timestamp: ts as i64,
                        relation_id,
                        last_lsn: lsn as u64,
                        data,
                    },
                )
            } else {
                None
            }
        },
        _ => None,
    }
}


/// Appends the framed record of `e` to `buf`.
pub fn append_frame(buf: &mut Vec<u8>, e: Event)
    ensures
        final(buf)@ == old(buf)@ + frame_bytes(e@),
        event_wf(e@),
{
    let ghost em = e@;
    let v = event_to_value(e);
    let mut body: Vec<u8> = Vec::new();
    encode_value(&v, &mut body);
    proof {
        assert(val_wf(event_as_value(em)));
        match event_as_value(em) {
            ValModel::Array(s) => {
                assert(s[4] == em.data);
                assert(val_wf(s[4]));
            }
            _ => {}
        }
    }
    push_u64_be(buf, body.len() as u64);
    buf.append(&mut body);
    proof {
        assert(buf@ =~= old(buf)@ + frame_bytes(em));
    }
}

/// The byte span (start, end) of the body of the last complete framed record
/// at or after `pos`, or `None` where no complete record starts there.
pub open spec fn last_frame(b: Seq<u8>, pos: int) -> Option<(int, int)>
    decreases b.len() - pos,
    when 0 <= pos <= b.len()
{
    if pos + 8 > b.len() {
        None
    } else {
        let n = u64_of_be(b.subrange(pos, pos + 8)) as int;
        if pos + 8 + n > b.len() {
            None
        } else {
            match last_frame(b, pos + 8 + n) {
                Some(r) => Some(r),
                None => Some((pos + 8, pos + 8 + n)),
            }
        }
    }
}

/// The last complete record of a chunk, read back as an event: `None` where
/// no complete record exists or the last one does not decode as an event.
pub open spec fn spec_parse_last(b: Seq<u8>) -> Option<EventModel> {
    match last_frame(b, 0) {
        None => None,
        Some((s, e)) => match dec_val(b, s) {
            Some((v, used)) => if used == e - s {
                event_of_value(v)
            } else {
                None
            },
            None => None,
        },
    }
}

/// Scans the length-prefixed records of a chunk front to back and returns the
/// last complete one as an event. Bytes after the last complete record are
/// ignored: they belong to a write that did not finish. `None` means the
/// chunk holds no complete record or its last record is corrupt.
#[verifier::loop_isolation(false)]
pub fn parse_last(bytes: &[u8]) -> (r: Option<Event>)
    ensures
        match r {
            Some(ev) => spec_parse_last(bytes@) == Some(ev@),
            None => spec_parse_last(bytes@) is None,
        },
{
    let len = bytes.len();
    let mut cur: usize = 0;
    let mut found: Option<(usize, usize)> = None;
    loop
        invariant
            cur <= len,
            len == bytes@.len(),
            last_frame(bytes@, 0) == (match last_frame(bytes@, cur as int) {
                Some(r) => Some(r),
                None => match found {
                    Some((s, e)) => Some((s as int, e as int)),
                    None => None,
                },
            }),
            found matches Some((s, e)) ==> s <= e <= len,
        decreases len - cur,
    {
        if len - cur < 8 {
            proof {
                assert(last_frame(bytes@, cur as int) is None);
            }
            break;
        }
        let n = read_u64_be(bytes, cur);
        if n > (len - (cur + 8)) as u64 {
            proof {
                assert(last_frame(bytes@, cur as int) is None);
            }
            break;
        }
        let nn = n as usize;
        found = Some((cur + 8, cur + 8 + nn));
        cur = cur + 8 + nn;
    }
    match found {
        None => None,
        Some((s, e)) => {
            match decode_value(bytes, s) {
                Some((v, end)) => {
                    if end == e {
                        value_to_event(v)
                    } else {
                        None
                    }
                },
                None => None,
            }
        },
    }
}

/// An unfinished trailing record: too short to hold a length field, or one
/// whose length field promises more bytes than are present.
pub open spec fn torn_tail(t: Seq<u8>) -> bool {
    t.len() < 8 || 8 + (u64_of_be(t.subrange(0, 8)) as int) > t.len()
}

/// The last complete record of well-formed frames followed by a torn tail is
/// the last frame written.
pub proof fn lemma_last_frame_at(b: Seq<u8>, pos: int, es: Seq<EventModel>, t: Seq<u8>)
    requires
        0 <= pos <= b.len(),
        b.subrange(pos, b.len() as int) == frames_bytes(es) + t,
        es.len() > 0,
        forall|i: int| 0 <= i < es.len() ==> event_wf(#[trigger] es[i]),
        torn_tail(t),
    ensures
        last_frame(b, pos) == Some(
            (
                pos + frames_bytes(es).len() - enc_event(es.last()).len(),
                pos + frames_bytes(es).len(),
            ),
        ),
    decreases es,
{
    let whole = frames_bytes(es) + t;
    let e0 = es[0];
    let n = enc_event(e0).len() as int;
    assert(frames_bytes(es) == frame_bytes(e0) + frames_bytes(es.drop_first()));
    assert(frame_bytes(e0).len() == 8 + n);
    let suffix = b.subrange(pos, b.len() as int);
    assert(suffix.len() == b.len() - pos);
    assert(suffix.len() == frames_bytes(es).len() + t.len());
    assert(b.len() - pos == frames_bytes(es).len() + t.len());
    assert(pos + 8 + n <= b.len());
    assert(b.subrange(pos, pos + 8) =~= u64_be_bytes(enc_event(e0).len() as u64)) by {
        assert forall|j: int| 0 <= j < 8 implies #[trigger] b.subrange(pos, pos + 8)[j]
            == u64_be_bytes(enc_event(e0).len() as u64)[j] by {
            assert(b.subrange(pos, pos + 8)[j] == b.subrange(pos, b.len() as int)[j]);
            assert(whole[j] == frame_bytes(e0)[j]);
            assert(frame_bytes(e0)[j] == u64_be_bytes(enc_event(e0).len() as u64)[j]);
        }
    }
    lemma_u64_be_round_trip(enc_event(e0).len() as u64);
    assert(u64_of_be(b.subrange(pos, pos + 8)) as int == n);
    let pos2 = pos + 8 + n;
    if es.len() == 1 {
        assert(frames_bytes(es.drop_first()) == Seq::<u8>::empty());
        assert(b.subrange(pos2, b.len() as int) =~= t) by {
            assert forall|j: int| 0 <= j < t.len() implies #[trigger] b.subrange(
                pos2,
                b.len() as int,
            )[j] == t[j] by {
                assert(b.subrange(pos2, b.len() as int)[j] == b.subrange(pos, b.len() as int)[j + 8
                    + n]);
                assert(whole[j + 8 + n] == t[j]);
            }
        }
        if t.len() < 8 {
            assert(pos2 + 8 > b.len());
            assert(last_frame(b, pos2) is None);
        } else {
            assert(b.subrange(pos2, pos2 + 8) =~= t.subrange(0, 8)) by {
                assert forall|j: int| 0 <= j < 8 implies #[trigger] b.subrange(pos2, pos2 + 8)[j]
                    == t.subrange(0, 8)[j] by {
                    assert(b.subrange(pos2, pos2 + 8)[j] == b.subrange(pos2, b.len() as int)[j]);
                }
            }
            assert(pos2 + 8 + (u64_of_be(b.subrange(pos2, pos2 + 8)) as int) > b.len());
            assert(last_frame(b, pos2) is None);
        }
        assert(last_frame(b, pos) == Some((pos + 8, pos + 8 + n)));
        assert(es.last() == e0);
    } else {
        let rest = es.drop_first();
        assert(b.subrange(pos2, b.len() as int) =~= frames_bytes(rest) + t) by {
            assert forall|j: int| 0 <= j < frames_bytes(rest).len() + t.len() implies #[trigger] b
                .subrange(pos2, b.len() as int)[j] == (frames_bytes(rest) + t)[j] by {
                assert(b.subrange(pos2, b.len() as int)[j] == b.subrange(pos, b.len() as int)[j + 8
                    + n]);
                assert(whole[j + 8 + n] == (frames_bytes(rest) + t)[j]);
            }
        }
        lemma_last_frame_at(b, pos2, rest, t);
        assert(rest.last() == es.last());
        assert(last_frame(b, pos) == last_frame(b, pos2));
    }
}

/// A value well-formed for writing makes a well-formed encoded event value.
pub proof fn lemma_event_value_wf(e: EventModel)
    requires
        val_wf(e.data),
    ensures
        val_wf(event_as_value(e)),
{
    match event_as_value(e) {
        ValModel::Array(s) => {
            assert forall|i: int| 0 <= i < s.len() implies val_wf(#[trigger] s[i]) by {
                if i == 4 {
                    assert(s[4] == e.data);
                }
            }
        }
        _ => {}
    }
}

/// Law: a chunk holding well-formed framed records followed by a torn tail
/// parses back to exactly the last record written, whatever the tail holds.
#[verifier::rlimit(50)]
pub proof fn lemma_parse_last_of_frames(es: Seq<EventModel>, t: Seq<u8>)
    requires
        es.len() > 0,
        forall|i: int| 0 <= i < es.len() ==> event_wf(#[trigger] es[i]),
        torn_tail(t),
    ensures
        spec_parse_last(frames_bytes(es) + t) == Some(es.last()),
{
    let b = frames_bytes(es) + t;
    let fl = frames_bytes(es).len() as int;
    let last = es.last();
    let n = enc_event(last).len() as int;
    assert(b.subrange(0, b.len() as int) =~= frames_bytes(es) + t);
    lemma_last_frame_at(b, 0, es, t);
    lemma_frames_bytes_snoc(es.drop_last(), last);
    assert(es.drop_last().push(last) =~= es);
    assert(frames_bytes(es) == frames_bytes(es.drop_last()) + frame_bytes(last));
    let start = fl - n;
    assert(b.subrange(start, fl) =~= enc_event(last)) by {
        assert forall|j: int| 0 <= j < n implies #[trigger] b.subrange(start, fl)[j] == enc_event(
            last,
        )[j] by {
            assert(b.subrange(start, fl)[j] == frames_bytes(es)[start + j]);
            assert(frames_bytes(es)[start + j] == frame_bytes(last)[j + 8]);
            assert(frame_bytes(last)[j + 8] == enc_event(last)[j]);
        }
    }
    lemma_event_value_wf(last);
    lemma_dec_enc_val(b, start, event_as_value(last));
    lemma_event_value_round_trip(last);
}

} // verus!
