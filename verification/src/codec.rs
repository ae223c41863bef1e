//! The self-describing binary encoding of values: a one-byte tag, big-endian
//! 64-bit length fields, UTF-8 text, and the entries of arrays and maps in
//! order. Decoding is the exact inverse of encoding; trailing bytes after a
//! value are left untouched.

use vstd::prelude::*;
use vstd::utf8::{encode_utf8, decode_utf8, valid_utf8};
use crate::bytes_be::{
    u64_be_bytes, u64_of_be, u128_be_bytes, u128_of_be, lemma_u64_be_round_trip,
    lemma_i128_cast_round_trip, push_u64_be, push_u128_be, read_u64_be, read_u128_be,
};
use crate::value::{Value, ValModel, val_wf, vals_view, pairs_view};

verus! {

broadcast use vstd::std_specs::vec::group_vec_axioms, vstd::seq::group_seq_axioms,
    vstd::utf8::group_utf8_lib;

pub const TAG_NULL: u8 = 0;

pub const TAG_BOOL: u8 = 1;

pub const TAG_INT: u8 = 2;

pub const TAG_TEXT: u8 = 3;

pub const TAG_ARRAY: u8 = 4;

pub const TAG_DICT: u8 = 5;

/// Encoded form of a text value: tag, byte length, UTF-8 bytes.
pub open spec fn enc_text(t: Seq<char>) -> Seq<u8> {
    seq![TAG_TEXT] + u64_be_bytes(encode_utf8(t).len() as u64) + encode_utf8(t)
}

/// Encoded form of one value.
pub open spec fn enc_val(v: ValModel) -> Seq<u8>
    decreases v,
{
    match v {
        ValModel::Null => seq![TAG_NULL],
        ValModel::Bool(b) => seq![TAG_BOOL, (if b { 1u8 } else { 0u8 })],
        ValModel::Int(i) => seq![TAG_INT] + u128_be_bytes(i as u128),
        ValModel::Text(t) => enc_text(t),
        ValModel::Array(s) => seq![TAG_ARRAY] + u64_be_bytes(s.len() as u64) + enc_vals(s),
        ValModel::Dict(s) => seq![TAG_DICT] + u64_be_bytes(s.len() as u64) + enc_pairs(s),
    }
}

/// Encoded forms of a sequence of values, concatenated.
pub open spec fn enc_vals(s: Seq<ValModel>) -> Seq<u8>
    decreases s,
{
    if s.len() == 0 {
        Seq::empty()
    } else {
        enc_val(s[0]) + enc_vals(s.drop_first())
    }
}

/// Encoded forms of a sequence of map entries, concatenated.
pub open spec fn enc_pairs(s: Seq<(Seq<char>, ValModel)>) -> Seq<u8>
    decreases s,
{
    if s.len() == 0 {
        Seq::empty()
    } else {
        enc_text(s[0].0) + enc_val(s[0].1) + enc_pairs(s.drop_first())
    }
}

/// Appending one value to a sequence appends its encoding.
pub proof fn lemma_enc_vals_snoc(s: Seq<ValModel>, v: ValModel)
    ensures
        enc_vals(s.push(v)) == enc_vals(s) + enc_val(v),
    decreases s,
{
    assert(s.push(v)[0] == if s.len() == 0 { v } else { s[0] });
    if s.len() == 0 {
        assert(s.push(v).drop_first() =~= Seq::<ValModel>::empty());
        assert(enc_vals(s.push(v)) == enc_val(v) + enc_vals(Seq::<ValModel>::empty()));
        assert(enc_vals(Seq::<ValModel>::empty()) == Seq::<u8>::empty());
        assert(enc_vals(s) == Seq::<u8>::empty());
        assert(enc_vals(s.push(v)) =~= enc_vals(s) + enc_val(v));
    } else {
        lemma_enc_vals_snoc(s.drop_first(), v);
        assert(s.push(v).drop_first() =~= s.drop_first().push(v));
        assert(enc_vals(s.push(v)) =~= enc_vals(s) + enc_val(v));
    }
}

/// Appending one entry to a sequence of map entries appends its encoding.
pub proof fn lemma_enc_pairs_snoc(s: Seq<(Seq<char>, ValModel)>, p: (Seq<char>, ValModel))
    ensures
        enc_pairs(s.push(p)) == enc_pairs(s) + (enc_text(p.0) + enc_val(p.1)),
    decreases s,
{
    assert(s.push(p)[0] == if s.len() == 0 { p } else { s[0] });
    if s.len() == 0 {
        assert(s.push(p).drop_first() =~= Seq::<(Seq<char>, ValModel)>::empty());
        assert(enc_pairs(s.push(p)) == enc_text(p.0) + enc_val(p.1) + enc_pairs(
            Seq::<(Seq<char>, ValModel)>::empty(),
        ));
        assert(enc_pairs(Seq::<(Seq<char>, ValModel)>::empty()) == Seq::<u8>::empty());
        assert(enc_pairs(s) == Seq::<u8>::empty());
        assert(enc_pairs(s.push(p)) =~= enc_pairs(s) + (enc_text(p.0) + enc_val(p.1)));
    } else {
        lemma_enc_pairs_snoc(s.drop_first(), p);
        assert(s.push(p).drop_first() =~= s.drop_first().push(p));
        assert(enc_pairs(s.push(p)) =~= enc_pairs(s) + (enc_text(p.0) + enc_val(p.1)));
    }
}

/// Decoded value and consumed byte count starting at `pos`, or `None` where
/// no well-formed value begins there.
pub open spec fn dec_val(b: Seq<u8>, pos: int) -> Option<(ValModel, int)>
    decreases b.len() - pos, 0int, 0int,
    when 0 <= pos <= b.len()
{
    if pos == b.len() {
        None
    } else {
        let tag = b[pos];
        if tag == TAG_NULL {
            Some((ValModel::Null, 1))
        } else if tag == TAG_BOOL {
            if pos + 2 <= b.len() && (b[pos + 1] == 0 || b[pos + 1] == 1) {
                Some((ValModel::Bool(b[pos + 1] == 1), 2))
            } else {
                None
            }
        } else if tag == TAG_INT {
            if pos + 17 <= b.len() {
                Some((ValModel::Int(u128_of_be(b.subrange(pos + 1, pos + 17)) as i128), 17))
            } else {
                None
            }
        } else if tag == TAG_TEXT {
            if pos + 9 <= b.len() {
                let n = u64_of_be(b.subrange(pos + 1, pos + 9)) as int;
                if pos + 9 + n <= b.len() && valid_utf8(b.subrange(pos + 9, pos + 9 + n)) {
                    Some((ValModel::Text(decode_utf8(b.subrange(pos + 9, pos + 9 + n))), 9 + n))
                } else {
                    None
                }
            } else {
                None
            }
        } else if tag == TAG_ARRAY {
            if pos + 9 <= b.len() {
                let n = u64_of_be(b.subrange(pos + 1, pos + 9)) as int;
                match dec_vals(b, pos + 9, n) {
                    Some((elems, used)) => Some((ValModel::Array(elems), 9 + used)),
                    None => None,
                }
            } else {
                None
            }
        } else if tag == TAG_DICT {
            if pos + 9 <= b.len() {
                let n = u64_of_be(b.subrange(pos + 1, pos + 9)) as int;
                match dec_pairs(b, pos + 9, n) {
                    Some((entries, used)) => Some((ValModel::Dict(entries), 9 + used)),
                    None => None,
                }
            } else {
                None
            }
        } else {
            None
        }
    }
}

/// Decoded sequence of `n` values starting at `pos` and the bytes consumed.
pub open spec fn dec_vals(b: Seq<u8>, pos: int, n: int) -> Option<(Seq<ValModel>, int)>
    decreases b.len() - pos, n, 1int,
    when 0 <= pos <= b.len()
{
    if n <= 0 {
        Some((Seq::empty(), 0))
    } else {
        match dec_val(b, pos) {
            None => None,
            Some((v, used)) => if used <= 0 || pos + used > b.len() {
                None
            } else {
                match dec_vals(b, pos + used, n - 1) {
                    None => None,
                    Some((rest, used2)) => Some((seq![v] + rest, used + used2)),
                }
            },
        }
    }
}

/// Decoded sequence of `n` map entries starting at `pos` and the bytes
/// consumed. Each key must decode as a text value.
pub open spec fn dec_pairs(b: Seq<u8>, pos: int, n: int) -> Option<
    (Seq<(Seq<char>, ValModel)>, int),
>
    decreases b.len() - pos, n, 1int,
    when 0 <= pos <= b.len()
{
    if n <= 0 {
        Some((Seq::empty(), 0))
    } else {
        match dec_val(b, pos) {
            Some((ValModel::Text(k), kused)) => if kused <= 0 || pos + kused > b.len() {
                None
            } else {
                match dec_val(b, pos + kused) {
                    None => None,
                    Some((v, vused)) => if vused <= 0 || pos + kused + vused > b.len() {
                        None
                    } else {
                        match dec_pairs(b, pos + kused + vused, n - 1) {
                            None => None,
                            Some((rest, used2)) => Some(
                                (seq![(k, v)] + rest, kused + vused + used2),
                            ),
                        }
                    },
                }
            },
            _ => None,
        }
    }
}

/// Every encoding starts with its tag byte and is never empty.
pub proof fn lemma_enc_val_len(v: ValModel)
    ensures
        1 <= enc_val(v).len(),
{
    match v {
        ValModel::Null => {}
        ValModel::Bool(_) => {}
        ValModel::Int(_) => {}
        ValModel::Text(_) => {}
        ValModel::Array(_) => {}
        ValModel::Dict(_) => {}
    }
}

/// Decoding reads back exactly the text value whose encoding sits at `pos`.
pub proof fn lemma_dec_enc_text(b: Seq<u8>, pos: int, t: Seq<char>)
    requires
        encode_utf8(t).len() < 0x1_0000_0000_0000_0000,
        0 <= pos,
        pos + enc_text(t).len() <= b.len(),
        b.subrange(pos, pos + enc_text(t).len() as int) == enc_text(t),
    ensures
        dec_val(b, pos) == Some((ValModel::Text(t), enc_text(t).len() as int)),
{
    let e = enc_text(t);
    let el = e.len() as int;
    let u = encode_utf8(t);
    let n = u.len() as int;
    assert(b[pos] == b.subrange(pos, pos + el)[0]);
    assert(e == seq![TAG_TEXT] + u64_be_bytes(u.len() as u64) + u);
    assert(e[0] == TAG_TEXT);
    assert(b.subrange(pos + 1, pos + 9) =~= u64_be_bytes(n as u64)) by {
        assert forall|j: int| 0 <= j < 8 implies #[trigger] b.subrange(pos + 1, pos + 9)[j]
            == u64_be_bytes(n as u64)[j] by {
            assert(b.subrange(pos + 1, pos + 9)[j] == b.subrange(pos, pos + el)[j + 1]);
            assert(e[j + 1] == u64_be_bytes(n as u64)[j]);
        }
    }
    lemma_u64_be_round_trip(n as u64);
    assert(b.subrange(pos + 9, pos + 9 + n) =~= u) by {
        assert forall|j: int| 0 <= j < n implies #[trigger] b.subrange(pos + 9, pos + 9 + n)[j]
            == u[j] by {
            assert(b.subrange(pos + 9, pos + 9 + n)[j] == b.subrange(pos, pos + el)[j + 9]);
            assert(e[j + 9] == u[j]);
        }
    }
}

/// Decoding reads back exactly the value whose encoding sits at `pos`.
pub proof fn lemma_dec_enc_val(b: Seq<u8>, pos: int, v: ValModel)
    requires
        val_wf(v),
        0 <= pos,
        pos + enc_val(v).len() <= b.len(),
        b.subrange(pos, pos + enc_val(v).len() as int) == enc_val(v),
    ensures
        dec_val(b, pos) == Some((v, enc_val(v).len() as int)),
    decreases v,
{
    let e = enc_val(v);
    let el = e.len() as int;
    assert(b[pos] == b.subrange(pos, pos + el)[0]);
    match v {
        ValModel::Null => {
            assert(e[0] == TAG_NULL);
        }
        ValModel::Bool(x) => {
            assert(e[0] == TAG_BOOL);
            assert(b[pos + 1] == b.subrange(pos, pos + el)[1]);
            assert(e[1] == (if x {
                1u8
            } else {
                0u8
            }));
        }
        ValModel::Int(i) => {
            assert(e[0] == TAG_INT);
            assert(b.subrange(pos + 1, pos + 17) =~= u128_be_bytes(i as u128)) by {
                assert forall|j: int| 0 <= j < 16 implies #[trigger] b.subrange(pos + 1, pos + 17)[j]
                    == u128_be_bytes(i as u128)[j] by {
                    assert(b.subrange(pos + 1, pos + 17)[j] == b.subrange(pos, pos + el)[j + 1]);
                    assert(e[j + 1] == u128_be_bytes(i as u128)[j]);
                }
            }
            crate::bytes_be::lemma_u128_be_round_trip(i as u128);
            lemma_i128_cast_round_trip(i);
        }
        ValModel::Text(t) => {
            lemma_dec_enc_text(b, pos, t);
        }
        ValModel::Array(s) => {
            let body = enc_vals(s);
            assert(e == seq![TAG_ARRAY] + u64_be_bytes(s.len() as u64) + body);
            assert(e[0] == TAG_ARRAY);
            assert(b.subrange(pos + 1, pos + 9) =~= u64_be_bytes(s.len() as u64)) by {
                assert forall|j: int| 0 <= j < 8 implies #[trigger] b.subrange(pos + 1, pos + 9)[j]
                    == u64_be_bytes(s.len() as u64)[j] by {
                    assert(b.subrange(pos + 1, pos + 9)[j] == b.subrange(pos, pos + el)[j + 1]);
                    assert(e[j + 1] == u64_be_bytes(s.len() as u64)[j]);
                }
            }
            lemma_u64_be_round_trip(s.len() as u64);
            assert(b.subrange(pos + 9, pos + 9 + body.len()) =~= body) by {
                assert forall|j: int| 0 <= j < body.len() implies #[trigger] b.subrange(
                    pos + 9,
                    pos + 9 + body.len() as int,
                )[j] == body[j] by {
                    assert(b.subrange(pos + 9, pos + 9 + body.len() as int)[j] == b.subrange(
                        pos,
                        pos + el,
                    )[j + 9]);
                    assert(e[j + 9] == body[j]);
                }
            }
            lemma_dec_enc_vals(b, pos + 9, s);
        }
        ValModel::Dict(s) => {
            let body = enc_pairs(s);
            assert(e == seq![TAG_DICT] + u64_be_bytes(s.len() as u64) + body);
            assert(e[0] == TAG_DICT);
            assert(b.subrange(pos + 1, pos + 9) =~= u64_be_bytes(s.len() as u64)) by {
                assert forall|j: int| 0 <= j < 8 implies #[trigger] b.subrange(pos + 1, pos + 9)[j]
                    == u64_be_bytes(s.len() as u64)[j] by {
                    assert(b.subrange(pos + 1, pos + 9)[j] == b.subrange(pos, pos + el)[j + 1]);
                    assert(e[j + 1] == u64_be_bytes(s.len() as u64)[j]);
                }
            }
            lemma_u64_be_round_trip(s.len() as u64);
            assert(b.subrange(pos + 9, pos + 9 + body.len()) =~= body) by {
                assert forall|j: int| 0 <= j < body.len() implies #[trigger] b.subrange(
                    pos + 9,
                    pos + 9 + body.len() as int,
                )[j] == body[j] by {
                    assert(b.subrange(pos + 9, pos + 9 + body.len() as int)[j] == b.subrange(
                        pos,
                        pos + el,
                    )[j + 9]);
                    assert(e[j + 9] == body[j]);
                }
            }
            lemma_dec_enc_pairs(b, pos + 9, s);
        }
    }
}

/// Decoding a run of encodings reads back exactly those values.
pub proof fn lemma_dec_enc_vals(b: Seq<u8>, pos: int, s: Seq<ValModel>)
    requires
        forall|i: int| 0 <= i < s.len() ==> val_wf(#[trigger] s[i]),
        0 <= pos,
        pos + enc_vals(s).len() <= b.len(),
        b.subrange(pos, pos + enc_vals(s).len() as int) == enc_vals(s),
    ensures
        dec_vals(b, pos, s.len() as int) == Some((s, enc_vals(s).len() as int)),
    decreases s,
{
    if s.len() == 0 {
        assert(s =~= Seq::<ValModel>::empty());
    } else {
        let e0 = enc_val(s[0]);
        let l0 = e0.len() as int;
        let rest = enc_vals(s.drop_first());
        assert(enc_vals(s) == e0 + rest);
        assert(b.subrange(pos, pos + l0) =~= e0) by {
            assert forall|j: int| 0 <= j < l0 implies #[trigger] b.subrange(pos, pos + l0)[j] == e0[j] by {
                assert(b.subrange(pos, pos + l0)[j] == b.subrange(
                    pos,
                    pos + enc_vals(s).len() as int,
                )[j]);
                assert(enc_vals(s)[j] == e0[j]);
            }
        }
        lemma_dec_enc_val(b, pos, s[0]);
        lemma_enc_val_len(s[0]);
        assert(b.subrange(pos + l0, pos + l0 + rest.len()) =~= rest) by {
            assert forall|j: int| 0 <= j < rest.len() implies #[trigger] b.subrange(
                pos + l0,
                pos + l0 + rest.len() as int,
            )[j] == rest[j] by {
                assert(b.subrange(pos + l0, pos + l0 + rest.len() as int)[j] == b.subrange(
                    pos,
                    pos + enc_vals(s).len() as int,
                )[j + l0]);
                assert(enc_vals(s)[j + l0] == rest[j]);
            }
        }
        lemma_dec_enc_vals(b, pos + l0, s.drop_first());
        assert(seq![s[0]] + s.drop_first() =~= s);
    }
}

/// Decoding a run of encoded entries reads back exactly those entries.
pub proof fn lemma_dec_enc_pairs(b: Seq<u8>, pos: int, s: Seq<(Seq<char>, ValModel)>)
    requires
        forall|i: int|
            0 <= i < s.len() ==> encode_utf8((#[trigger] s[i]).0).len() < 0x1_0000_0000_0000_0000
                && val_wf(s[i].1),
        0 <= pos,
        pos + enc_pairs(s).len() <= b.len(),
        b.subrange(pos, pos + enc_pairs(s).len() as int) == enc_pairs(s),
    ensures
        dec_pairs(b, pos, s.len() as int) == Some((s, enc_pairs(s).len() as int)),
    decreases s,
{
    if s.len() == 0 {
        assert(s =~= Seq::<(Seq<char>, ValModel)>::empty());
    } else {
        let k = s[0].0;
        let v0 = s[0].1;
        let ek = enc_text(k);
        let lk = ek.len() as int;
        let ev = enc_val(v0);
        let lv = ev.len() as int;
        let rest = enc_pairs(s.drop_first());
        assert(enc_pairs(s) == ek + ev + rest);
        assert(enc_val(ValModel::Text(k)) == ek);
        assert(b.subrange(pos, pos + lk) =~= ek) by {
            assert forall|j: int| 0 <= j < lk implies #[trigger] b.subrange(pos, pos + lk)[j] == ek[j] by {
                assert(b.subrange(pos, pos + lk)[j] == b.subrange(
                    pos,
                    pos + enc_pairs(s).len() as int,
                )[j]);
                assert(enc_pairs(s)[j] == ek[j]);
            }
        }
        lemma_dec_enc_text(b, pos, k);
        assert(b.subrange(pos + lk, pos + lk + lv) =~= ev) by {
            assert forall|j: int| 0 <= j < lv implies #[trigger] b.subrange(pos + lk, pos + lk + lv)[j]
                == ev[j] by {
                assert(b.subrange(pos + lk, pos + lk + lv)[j] == b.subrange(
                    pos,
                    pos + enc_pairs(s).len() as int,
                )[j + lk]);
                assert(enc_pairs(s)[j + lk] == ev[j]);
            }
        }
        lemma_dec_enc_val(b, pos + lk, v0);
        lemma_enc_val_len(v0);
        assert(b.subrange(pos + lk + lv, pos + lk + lv + rest.len()) =~= rest) by {
            assert forall|j: int| 0 <= j < rest.len() implies #[trigger] b.subrange(
                pos + lk + lv,
                pos + lk + lv + rest.len() as int,
            )[j] == rest[j] by {
                assert(b.subrange(pos + lk + lv, pos + lk + lv + rest.len() as int)[j]
                    == b.subrange(pos, pos + enc_pairs(s).len() as int)[j + lk + lv]);
                assert(enc_pairs(s)[j + lk + lv] == rest[j]);
            }
        }
        lemma_dec_enc_pairs(b, pos + lk + lv, s.drop_first());
        assert(seq![(k, v0)] + s.drop_first() =~= s);
    }
}

/// Law: whatever bytes follow it, an encoded value decodes back to itself,
/// consuming exactly its own encoding.
pub proof fn lemma_codec_round_trip(v: ValModel, tail: Seq<u8>)
    requires
        val_wf(v),
    ensures
        dec_val(enc_val(v) + tail, 0) == Some((v, enc_val(v).len() as int)),
{
    let b = enc_val(v) + tail;
    assert(b.subrange(0, enc_val(v).len() as int) =~= enc_val(v));
    lemma_dec_enc_val(b, 0, v);
}


/// Relies on core::str::from_utf8: it returns `Ok` exactly on valid UTF-8,
/// and the string it returns reads back as the input bytes.
#[verifier::external_body]
pub(crate) fn utf8_to_string(v: &[u8]) -> (r: Option<String>)
    ensures
        r is Some <==> valid_utf8(v@),
        r matches Some(s) ==> encode_utf8(s@) == v@,
{
    match core::str::from_utf8(v) {
        Ok(s) => Some(s.to_owned()),
        Err(_) => None,
    }
}

/// Appends the encoding of a text value to `buf`.
pub fn encode_text(s: &str, buf: &mut Vec<u8>)
    ensures
        final(buf)@ == old(buf)@ + enc_text(s@),
        encode_utf8(s@).len() < 0x1_0000_0000_0000_0000,
{
    let bytes: &[u8] = s.as_bytes();
    buf.push(TAG_TEXT);
    push_u64_be(buf, bytes.len() as u64);
    buf.extend_from_slice(bytes);
    proof {
        assert(buf@ =~= old(buf)@ + enc_text(s@));
    }
}

/// Appends the encoding of `v` to `buf`.
#[verifier::loop_isolation(false)]
pub fn encode_value(v: &Value, buf: &mut Vec<u8>)
    ensures
        final(buf)@ == old(buf)@ + enc_val(v@),
        val_wf(v@),
    decreases v,
{
    match v {
        Value::Null => {
            buf.push(TAG_NULL);
            proof {
                assert(buf@ =~= old(buf)@ + enc_val(v@));
            }
        }
        Value::Bool(x) => {
            buf.push(TAG_BOOL);
            buf.push(if *x {
                1
            } else {
                0
            });
            proof {
                assert(buf@ =~= old(buf)@ + enc_val(v@));
            }
        }
        Value::Int(i) => {
            buf.push(TAG_INT);
            push_u128_be(buf, *i as u128);
            proof {
                assert(buf@ =~= old(buf)@ + enc_val(v@));
            }
        }
        Value::Text(s) => {
            encode_text(s.as_str(), buf);
            proof {
                assert(buf@ =~= old(buf)@ + enc_val(v@));
            }
        }
        Value::Array(a) => {
            buf.push(TAG_ARRAY);
            push_u64_be(buf, a.len() as u64);
            proof {
                crate::value::lemma_vals_view_index(a@);
            }
            let ghost pre: Seq<u8> = buf@;
            let ghost views: Seq<ValModel> = vals_view(a@);
            let mut idx: usize = 0;
            proof {
                assert(views.take(0) =~= Seq::<ValModel>::empty());
                assert(enc_vals(views.take(0)) == Seq::<u8>::empty());
                assert(buf@ =~= pre + enc_vals(views.take(0)));
            }
            while idx < a.len()
                invariant
                    idx <= a@.len(),
                    views == vals_view(a@),
                    views.len() == a@.len(),
                    forall|j: int| 0 <= j < a@.len() ==> views[j] == crate::value::val_view(
                        #[trigger] a@[j],
                    ),
                    buf@ == pre + enc_vals(views.take(idx as int)),
                    forall|j: int| 0 <= j < idx ==> val_wf(#[trigger] views[j]),
                decreases a@.len() - idx,
            {
                proof {
                    assert(decreases_to!(*v => *a));
                    assert(decreases_to!(*a => a@[idx as int]));
                }
                encode_value(&a[idx], buf);
                proof {
                    lemma_enc_vals_snoc(views.take(idx as int), views[idx as int]);
                    assert(views.take(idx as int).push(views[idx as int]) =~= views.take(
                        idx as int + 1,
                    ));
                    assert(buf@ =~= pre + enc_vals(views.take(idx as int + 1)));
                }
                idx += 1;
            }
            proof {
                assert(views.take(a@.len() as int) =~= views);
                assert(buf@ =~= old(buf)@ + enc_val(v@));
            }
        }
        Value::Dict(m) => {
            buf.push(TAG_DICT);
            push_u64_be(buf, m.len() as u64);
            proof {
                crate::value::lemma_pairs_view_index(m@);
            }
            let ghost pre: Seq<u8> = buf@;
            let ghost views: Seq<(Seq<char>, ValModel)> = pairs_view(m@);
            let mut idx: usize = 0;
            proof {
                assert(views.take(0) =~= Seq::<(Seq<char>, ValModel)>::empty());
                assert(enc_pairs(views.take(0)) == Seq::<u8>::empty());
                assert(buf@ =~= pre + enc_pairs(views.take(0)));
            }
            while idx < m.len()
                invariant
                    idx <= m@.len(),
                    views == pairs_view(m@),
                    views.len() == m@.len(),
                    forall|j: int| 0 <= j < m@.len() ==> views[j] == ((#[trigger] m@[j]).0@,
                    crate::value::val_view(m@[j].1)),
                    buf@ == pre + enc_pairs(views.take(idx as int)),
                    forall|j: int| 0 <= j < idx ==> encode_utf8((#[trigger] views[j]).0).len()
                        < 0x1_0000_0000_0000_0000 && val_wf(views[j].1),
                decreases m@.len() - idx,
            {
                proof {
                    assert(decreases_to!(*v => *m));
                    assert(decreases_to!(*m => m@[idx as int]));
                    assert(decreases_to!(m@[idx as int] => m@[idx as int].1));
                }
                encode_text(m[idx].0.as_str(), buf);
                encode_value(&m[idx].1, buf);
                proof {
                    lemma_enc_pairs_snoc(views.take(idx as int), views[idx as int]);
                    assert(views.take(idx as int).push(views[idx as int]) =~= views.take(
                        idx as int + 1,
                    ));
                    assert(buf@ =~= pre + enc_pairs(views.take(idx as int + 1)));
                }
                idx += 1;
            }
            proof {
                assert(views.take(m@.len() as int) =~= views);
                assert(buf@ =~= old(buf)@ + enc_val(v@));
            }
        }
    }
}

/// Decodes the value whose encoding starts at `pos`, returning it with the
/// position just past it; `None` where no well-formed value starts there.
#[verifier::loop_isolation(false)]
#[verifier::rlimit(100)]
pub fn decode_value(bytes: &[u8], pos: usize) -> (r: Option<(Value, usize)>)
    requires
        pos <= bytes@.len(),
    ensures
        match r {
            Some((v, end)) => pos < end <= bytes@.len() && dec_val(bytes@, pos as int) == Some(
                (v@, end - pos as int),
            ),
            None => dec_val(bytes@, pos as int) is None,
        },
    decreases bytes@.len() - pos,
{
    let len = bytes.len();
    if pos == len {
        return None;
    }
    let tag = bytes[pos];
    if tag == TAG_NULL {
        Some((Value::Null, pos + 1))
    } else if tag == TAG_BOOL {
        if len - pos >= 2 {
            let x = bytes[pos + 1];
            if x == 0 || x == 1 {
                Some((Value::Bool(x == 1), pos + 2))
            } else {
                None
            }
        } else {
            None
        }
    } else if tag == TAG_INT {
        if len - pos >= 17 {
            let x = read_u128_be(bytes, pos + 1);
            proof {
                crate::bytes_be::lemma_u128_cast_round_trip(x);
            }
            Some((Value::Int(x as i128), pos + 17))
        } else {
            None
        }
    } else if tag == TAG_TEXT {
        if len - pos >= 9 {
            let n = read_u64_be(bytes, pos + 1);
            if n <= (len - (pos + 9)) as u64 {
                let nn = n as usize;
                let sl = vstd::slice::slice_subrange(bytes, pos + 9, pos + 9 + nn);
                match utf8_to_string(sl) {
                    Some(s) => {
                        proof {
                            vstd::utf8::encode_utf8_decode_utf8(s@);
                        }
                        Some((Value::Text(s), pos + 9 + nn))
                    },
                    None => None,
                }
            } else {
                None
            }
        } else {
            None
        }
    } else if tag == TAG_ARRAY {
        if len - pos >= 9 {
            let n = read_u64_be(bytes, pos + 1);
            let ghost start: int = pos as int + 9;
            let mut elems: Vec<Value> = Vec::new();
            let mut cur: usize = pos + 9;
            let mut i: u64 = 0;
            proof {
                assert(vals_view(elems@) =~= Seq::<ValModel>::empty());
            }
            while i < n
                invariant
                    pos as int + 9 <= cur as int <= bytes@.len(),
                    start == pos as int + 9,
                    i <= n,
                    len == bytes@.len(),
                    dec_vals(bytes@, start, n as int) == (match dec_vals(
                        bytes@,
                        cur as int,
                        n as int - i as int,
                    ) {
                        None => None::<(Seq<ValModel>, int)>,
                        Some((rest, u)) => Some(
                            (vals_view(elems@) + rest, cur as int - start + u),
                        ),
                    }),
                decreases n - i,
            {
                match decode_value(bytes, cur) {
                    None => {
                        proof {
                            assert(dec_vals(bytes@, cur as int, n as int - i as int) is None);
                            assert(dec_vals(bytes@, start, n as int) is None);
                            assert(bytes@[pos as int] == TAG_ARRAY);
                            assert(u64_of_be(bytes@.subrange(pos as int + 1, pos as int + 9))
                                == n);
                            assert(dec_val(bytes@, pos as int) is None);
                        }
                        return None;
                    },
                    Some((v, end)) => {
                        let ghost vv = v@;
                        proof {
                            let k = n as int - i as int;
                            assert(dec_val(bytes@, cur as int) == Some((vv, end - cur as int)));
                            crate::value::lemma_vals_view_snoc(elems@, v);
                            match dec_vals(bytes@, end as int, k - 1) {
                                None => {
                                    assert(dec_vals(bytes@, cur as int, k) is None);
                                }
                                Some((rest, u2)) => {
                                    assert(dec_vals(bytes@, cur as int, k) == Some(
                                        (seq![vv] + rest, (end - cur as int) + u2),
                                    ));
                                    assert(vals_view(elems@) + (seq![vv] + rest) =~= vals_view(
                                        elems@.push(v),
                                    ) + rest);
                                }
                            }
                        }
                        elems.push(v);
                        cur = end;
                        i = i + 1;
                    },
                }
            }
            proof {
                assert(dec_vals(bytes@, cur as int, 0) == Some((Seq::<ValModel>::empty(), 0int)));
                assert(vals_view(elems@) + Seq::<ValModel>::empty() =~= vals_view(elems@));
                assert(dec_vals(bytes@, start, n as int) == Some(
                    (vals_view(elems@), cur as int - start),
                ));
            }
            Some((Value::Array(elems), cur))
        } else {
            None
        }
    } else if tag == TAG_DICT {
        if len - pos >= 9 {
            let n = read_u64_be(bytes, pos + 1);
            let ghost start: int = pos as int + 9;
            let mut entries: Vec<(String, Value)> = Vec::new();
            let mut cur: usize = pos + 9;
            let mut i: u64 = 0;
            proof {
                assert(pairs_view(entries@) =~= Seq::<(Seq<char>, ValModel)>::empty());
            }
            while i < n
                invariant
                    pos as int + 9 <= cur as int <= bytes@.len(),
                    start == pos as int + 9,
                    i <= n,
                    len == bytes@.len(),
                    dec_pairs(bytes@, start, n as int) == (match dec_pairs(
                        bytes@,
                        cur as int,
                        n as int - i as int,
                    ) {
                        None => None::<(Seq<(Seq<char>, ValModel)>, int)>,
                        Some((rest, u)) => Some(
                            (pairs_view(entries@) + rest, cur as int - start + u),
                        ),
                    }),
                decreases n - i,
            {
                let kd = decode_value(bytes, cur);
                match kd {
                    Some((Value::Text(k), kend)) => {
                        match decode_value(bytes, kend) {
                            None => {
                                proof {
                                    assert(dec_pairs(
                                        bytes@,
                                        cur as int,
                                        n as int - i as int,
                                    ) is None);
                                    assert(dec_pairs(bytes@, start, n as int) is None);
                                    assert(bytes@[pos as int] == TAG_DICT);
                                    assert(u64_of_be(
                                        bytes@.subrange(pos as int + 1, pos as int + 9),
                                    ) == n);
                                    assert(dec_val(bytes@, pos as int) is None);
                                }
                                return None;
                            },
                            Some((v, vend)) => {
                                let ghost kk = k@;
                                let ghost vv = v@;
                                proof {
                                    let kc = cur as int;
                                    let k2 = n as int - i as int;
                                    crate::value::lemma_pairs_view_snoc(entries@, (k, v));
                                    match dec_pairs(bytes@, vend as int, k2 - 1) {
                                        None => {
                                            assert(dec_pairs(bytes@, kc, k2) is None);
                                        }
                                        Some((rest, u2)) => {
                                            assert(dec_pairs(bytes@, kc, k2) == Some(
                                                (
                                                    seq![(kk, vv)] + rest,
                                                    (kend - kc) + (vend - kend as int) + u2,
                                                ),
                                            ));
                                            assert(pairs_view(entries@) + (seq![(kk, vv)] + rest)
                                                =~= pairs_view(entries@.push((k, v))) + rest);
                                        }
                                    }
                                }
                                entries.push((k, v));
                                cur = vend;
                                i = i + 1;
                            },
                        }
                    },
                    Some((other, _)) => {
                        proof {
                            assert(!(other@ is Text));
                            assert(dec_pairs(bytes@, cur as int, n as int - i as int) is None);
                            assert(dec_pairs(bytes@, start, n as int) is None);
                            assert(bytes@[pos as int] == TAG_DICT);
                            assert(u64_of_be(bytes@.subrange(pos as int + 1, pos as int + 9))
                                == n);
                            assert(dec_val(bytes@, pos as int) is None);
                        }
                        return None;
                    },
                    None => {
                        proof {
                            assert(dec_pairs(bytes@, cur as int, n as int - i as int) is None);
                            assert(dec_pairs(bytes@, start, n as int) is None);
                            assert(bytes@[pos as int] == TAG_DICT);
                            assert(u64_of_be(bytes@.subrange(pos as int + 1, pos as int + 9))
                                == n);
                            assert(dec_val(bytes@, pos as int) is None);
                        }
                        return None;
                    },
                }
            }
            proof {
                assert(dec_pairs(bytes@, cur as int, 0) == Some::<(Seq<(Seq<char>, ValModel)>, int)>(
                    (Seq::<(Seq<char>, ValModel)>::empty(), 0),
                ));
                assert(pairs_view(entries@) + Seq::<(Seq<char>, ValModel)>::empty() =~= pairs_view(
                    entries@,
                ));
                assert(dec_pairs(bytes@, start, n as int) == Some(
                    (pairs_view(entries@), cur as int - start),
                ));
            }
            Some((Value::Dict(entries), cur))
        } else {
            None
        }
    } else {
        None
    }
}

} // verus!
