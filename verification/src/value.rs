//! The self-describing values carried by replication event records: null,
//! booleans, 128-bit signed integers, UTF-8 text, arrays, and maps whose keys
//! keep their insertion order.

use vstd::prelude::*;
use vstd::utf8::encode_utf8;

verus! {

broadcast use vstd::std_specs::vec::group_vec_axioms, vstd::seq::group_seq_axioms;

/// A self-describing scalar or container value carried by an event record.
/// Dict entries keep the order in which they were inserted.
#[derive(Debug)]
pub enum Value {
    Null,
    Bool(bool),
    Int(i128),
    Text(String),
    Array(Vec<Value>),
    Dict(Vec<(String, Value)>),
}

/// The mathematical shape of a `Value`: text as character sequences,
/// containers as sequences.
pub enum ValModel {
    Null,
    Bool(bool),
    Int(i128),
    Text(Seq<char>),
    Array(Seq<ValModel>),
    Dict(Seq<(Seq<char>, ValModel)>),
}

/// The mathematical shape of one value.
pub open spec fn val_view(v: Value) -> ValModel
    decreases v,
{
    match v {
        Value::Null => ValModel::Null,
        Value::Bool(b) => ValModel::Bool(b),
        Value::Int(i) => ValModel::Int(i),
        Value::Text(s) => ValModel::Text(s@),
        Value::Array(a) => ValModel::Array(vals_view(a@)),
        Value::Dict(m) => ValModel::Dict(pairs_view(m@)),
    }
}

/// The mathematical shape of a sequence of values.
pub open spec fn vals_view(s: Seq<Value>) -> Seq<ValModel>
    decreases s,
{
    if s.len() == 0 {
        Seq::empty()
    } else {
        seq![val_view(s[0])] + vals_view(s.drop_first())
    }
}

/// The mathematical shape of a sequence of key/value entries.
pub open spec fn pairs_view(s: Seq<(String, Value)>) -> Seq<(Seq<char>, ValModel)>
    decreases s,
{
    if s.len() == 0 {
        Seq::empty()
    } else {
        seq![(s[0].0@, val_view(s[0].1))] + pairs_view(s.drop_first())
    }
}

impl View for Value {
    type V = ValModel;

    open spec fn view(&self) -> ValModel {
        val_view(*self)
    }
}

/// A sequence of values is viewed element by element.
pub proof fn lemma_vals_view_index(s: Seq<Value>)
    ensures
        vals_view(s).len() == s.len(),
        forall|i: int| 0 <= i < s.len() ==> vals_view(s)[i] == val_view(#[trigger] s[i]),
    decreases s,
{
    if s.len() > 0 {
        lemma_vals_view_index(s.drop_first());
        assert forall|i: int| 0 <= i < s.len() implies vals_view(s)[i] == val_view(
            #[trigger] s[i],
        ) by {
            if i > 0 {
                assert(s.drop_first()[i - 1] == s[i]);
                assert(vals_view(s)[i] == vals_view(s.drop_first())[i - 1]);
            }
        }
    }
}

/// A sequence of entries is viewed entry by entry.
pub proof fn lemma_pairs_view_index(s: Seq<(String, Value)>)
    ensures
        pairs_view(s).len() == s.len(),
        forall|i: int|
            0 <= i < s.len() ==> pairs_view(s)[i] == ((#[trigger] s[i]).0@, val_view(s[i].1)),
    decreases s,
{
    if s.len() > 0 {
        lemma_pairs_view_index(s.drop_first());
        assert forall|i: int| 0 <= i < s.len() implies pairs_view(s)[i] == ((#[trigger] s[i]).0@,
        val_view(s[i].1)) by {
            if i > 0 {
                assert(s.drop_first()[i - 1] == s[i]);
                assert(pairs_view(s)[i] == pairs_view(s.drop_first())[i - 1]);
            }
        }
    }
}

/// Appending a value appends its shape.
pub proof fn lemma_vals_view_snoc(s: Seq<Value>, v: Value)
    ensures
        vals_view(s.push(v)) == vals_view(s).push(val_view(v)),
{
    lemma_vals_view_index(s.push(v));
    lemma_vals_view_index(s);
    assert forall|i: int| 0 <= i < s.len() + 1 implies vals_view(s.push(v))[i] == vals_view(
        s,
    ).push(val_view(v))[i] by {
        if i < s.len() {
            assert(s.push(v)[i] == s[i]);
            assert(vals_view(s.push(v))[i] == val_view(s.push(v)[i]));
        } else {
            assert(s.push(v)[i] == v);
            assert(vals_view(s.push(v))[i] == val_view(s.push(v)[i]));
        }
    }
    assert(vals_view(s.push(v)) =~= vals_view(s).push(val_view(v)));
}

/// Appending an entry appends its shape.
pub proof fn lemma_pairs_view_snoc(s: Seq<(String, Value)>, p: (String, Value))
    ensures
        pairs_view(s.push(p)) == pairs_view(s).push((p.0@, val_view(p.1))),
{
    lemma_pairs_view_index(s.push(p));
    lemma_pairs_view_index(s);
    assert forall|i: int| 0 <= i < s.len() + 1 implies pairs_view(s.push(p))[i] == pairs_view(
        s,
    ).push((p.0@, val_view(p.1)))[i] by {
        if i < s.len() {
            assert(s.push(p)[i] == s[i]);
            assert(pairs_view(s.push(p))[i] == (s.push(p)[i].0@, val_view(s.push(p)[i].1)));
        } else {
            assert(s.push(p)[i] == p);
            assert(pairs_view(s.push(p))[i] == (s.push(p)[i].0@, val_view(s.push(p)[i].1)));
        }
    }
    assert(pairs_view(s.push(p)) =~= pairs_view(s).push((p.0@, val_view(p.1))));
}

/// Bounds that every value held in memory meets: container and text lengths
/// fit the 64-bit length fields of the record format.
pub open spec fn val_wf(v: ValModel) -> bool
    decreases v,
{
    match v {
        ValModel::Null => true,
        ValModel::Bool(_) => true,
        ValModel::Int(_) => true,
        ValModel::Text(t) => encode_utf8(t).len() < 0x1_0000_0000_0000_0000,
        ValModel::Array(s) => s.len() < 0x1_0000_0000_0000_0000 && (forall|i: int|
            0 <= i < s.len() ==> val_wf(#[trigger] s[i])),
        ValModel::Dict(s) => s.len() < 0x1_0000_0000_0000_0000 && (forall|i: int|
            0 <= i < s.len() ==> encode_utf8((#[trigger] s[i]).0).len() < 0x1_0000_0000_0000_0000
                && val_wf(s[i].1)),
    }
}

} // verus!
