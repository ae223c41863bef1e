//! Decimal text, upstream message payloads, and row tuples, turned into the
//! values that are framed into chunk records.

use vstd::prelude::*;
use crate::value::{
    Value, ValModel, val_view, vals_view, pairs_view, lemma_pairs_view_index,
    lemma_vals_view_snoc, lemma_pairs_view_snoc,
};
use crate::schema::{Attribute, TableSchema, OID_INT4, OID_VARCHAR, OID_TIMESTAMP};

verus! {

broadcast use vstd::std_specs::vec::group_vec_axioms, vstd::seq::group_seq_axioms;

/// Whether the character is a decimal digit.
pub open spec fn dec_digit(c: char) -> bool {
    '0' <= c && c <= '9'
}

/// The numeric value of one digit character.
pub open spec fn digit_val(c: char) -> int {
    c as int - 48
}

/// Whether every character of the sequence is a decimal digit.
pub open spec fn all_digits(s: Seq<char>) -> bool {
    forall|i: int| 0 <= i < s.len() ==> dec_digit(#[trigger] s[i])
}

/// The integer denoted by a run of decimal digits, most significant first.
pub open spec fn digits_val(s: Seq<char>) -> int
    decreases s.len(),
{
    if s.len() == 0 {
        0
    } else {
        digits_val(s.drop_last()) * 10 + digit_val(s.last())
    }
}

/// A run of digits denotes a non-negative number.
pub proof fn lemma_digits_val_nonneg(s: Seq<char>)
    requires
        all_digits(s),
    ensures
        digits_val(s) >= 0,
    decreases s.len(),
{
    if s.len() > 0 {
        assert(all_digits(s.drop_last())) by {
            assert(forall|i: int|
                0 <= i < s.len() - 1 ==> s.drop_last()[i] == #[trigger] s[i] && dec_digit(s[i]));
        }
        lemma_digits_val_nonneg(s.drop_last());
    }
}

/// The unsigned 64-bit number denoted by the digits of `s`, or `None` where
/// `s` is empty, holds a non-digit, or denotes a number above `u64::MAX`.
pub open spec fn spec_parse_u64(s: Seq<char>) -> Option<u64> {
    if s.len() > 0 && all_digits(s) && digits_val(s) <= u64::MAX {
        Some(digits_val(s) as u64)
    } else {
        None
    }
}

/// The unsigned 32-bit number denoted by the digits of `s`.
pub open spec fn spec_parse_u32(s: Seq<char>) -> Option<u32> {
    if s.len() > 0 && all_digits(s) && digits_val(s) <= u32::MAX {
        Some(digits_val(s) as u32)
    } else {
        None
    }
}

/// The signed 32-bit number denoted by `s`: an optional sign, then digits.
pub open spec fn spec_parse_i32(s: Seq<char>) -> Option<i32> {
    if s.len() == 0 {
        None
    } else if s[0] == '-' {
        let d = s.drop_first();
        if d.len() > 0 && all_digits(d) && digits_val(d) <= 0x8000_0000 {
            Some((-digits_val(d)) as i32)
        } else {
            None
        }
    } else if s[0] == '+' {
        let d = s.drop_first();
        if d.len() > 0 && all_digits(d) && digits_val(d) <= i32::MAX {
            Some(digits_val(d) as i32)
        } else {
            None
        }
    } else {
        if all_digits(s) && digits_val(s) <= i32::MAX {
            Some(digits_val(s) as i32)
        } else {
            None
        }
    }
}

/// Parses the digits of `s` from position `from` to the end as an unsigned
/// 64-bit number.
#[verifier::loop_isolation(false)]
pub fn parse_u64_digits(s: &str, from: usize) -> (r: Option<u64>)
    requires
        from <= s@.len(),
    ensures
        r == spec_parse_u64(s@.subrange(from as int, s@.len() as int)),
{
    let ghost d: Seq<char> = s@.subrange(from as int, s@.len() as int);
    let len = s.unicode_len();
    if from == len {
        return None;
    }
    let mut acc: u64 = 0;
    let mut ovf: bool = false;
    let mut i: usize = from;
    while i < len
        invariant
            from <= i <= len,
            all_digits(d.take(i - from)),
            !ovf ==> acc == digits_val(d.take(i - from)),
            ovf ==> digits_val(d.take(i - from)) > u64::MAX,
        decreases len - i,
    {
        let c = s.get_char(i);
        if c < '0' || c > '9' {
            proof {
                assert(d[i - from] == s@[i as int]);
                assert(!all_digits(d));
            }
            return None;
        }
        let dv: u64 = (c as u32 - 48) as u64;
        proof {
            assert(d.take(i + 1 - from).drop_last() =~= d.take(i - from));
            assert(d.take(i + 1 - from).last() == d[i - from]);
            assert(d[i - from] == s@[i as int]);
            assert(digits_val(d.take(i + 1 - from)) == digits_val(d.take(i - from)) * 10 + digit_val(
                s@[i as int],
            ));
            lemma_digits_val_nonneg(d.take(i - from));
        }
        if ovf {
            proof {
                assert(digits_val(d.take(i + 1 - from)) > u64::MAX) by (nonlinear_arith)
                    requires
                        digits_val(d.take(i + 1 - from)) == digits_val(d.take(i - from)) * 10
                            + digit_val(s@[i as int]),
                        digits_val(d.take(i - from)) > u64::MAX,
                        digit_val(s@[i as int]) >= 0,
                ;
            }
        } else {
            if acc > (u64::MAX - dv) / 10 {
                proof {
                    assert(acc * 10 + dv > u64::MAX) by (nonlinear_arith)
                        requires
                            acc > (u64::MAX - dv) / 10,
                            0 <= dv <= 9,
                            acc <= u64::MAX,
                    ;
                }
                ovf = true;
            } else {
                proof {
                    assert(acc * 10 + dv <= u64::MAX) by (nonlinear_arith)
                        requires
                            acc <= (u64::MAX - dv) / 10,
                            0 <= dv <= 9,
                    ;
                }
                acc = acc * 10 + dv;
            }
        }
        i += 1;
    }
    proof {
        assert(d.take(len - from) =~= d);
    }
    if ovf {
        None
    } else {
        Some(acc)
    }
}

/// Parses the digits of `s` as an unsigned 32-bit number.
pub fn parse_u32_digits(s: &str) -> (r: Option<u32>)
    ensures
        r == spec_parse_u32(s@),
{
    proof {
        assert(s@.subrange(0, s@.len() as int) =~= s@);
    }
    match parse_u64_digits(s, 0) {
        Some(v) => {
            proof {
                lemma_digits_val_nonneg(s@);
                assert(v == digits_val(s@));
            }
            if v <= u32::MAX as u64 {
                Some(v as u32)
            } else {
                None
            }
        },
        None => {
            proof {
                if s@.len() > 0 && all_digits(s@) {
                    lemma_digits_val_nonneg(s@);
                }
            }
            None
        },
    }
}

/// Parses `s` as a signed 32-bit number: an optional sign, then digits.
pub fn parse_i32_text(s: &str) -> (r: Option<i32>)
    ensures
        r == spec_parse_i32(s@),
{
    let len = s.unicode_len();
    if len == 0 {
        return None;
    }
    let c0 = s.get_char(0);
    if c0 == '-' {
        let ghost d = s@.drop_first();
        proof {
            assert(d =~= s@.subrange(1, s@.len() as int));
        }
        match parse_u64_digits(s, 1) {
            Some(v) => {
                proof {
                    lemma_digits_val_nonneg(d);
                    assert(v == digits_val(d));
                }
                if v <= 0x8000_0000 {
                    Some((-(v as i64)) as i32)
                } else {
                    None
                }
            },
            None => {
                proof {
                    if d.len() > 0 && all_digits(d) {
                        lemma_digits_val_nonneg(d);
                    }
                }
                None
            },
        }
    } else if c0 == '+' {
        let ghost d = s@.drop_first();
        proof {
            assert(d =~= s@.subrange(1, s@.len() as int));
        }
        match parse_u64_digits(s, 1) {
            Some(v) => {
                proof {
                    lemma_digits_val_nonneg(d);
                    assert(v == digits_val(d));
                }
                if v <= i32::MAX as u64 {
                    Some(v as i32)
                } else {
                    None
                }
            },
            None => {
                proof {
                    if d.len() > 0 && all_digits(d) {
                        lemma_digits_val_nonneg(d);
                    }
                }
                None
            },
        }
    } else {
        proof {
            assert(s@.subrange(0, s@.len() as int) =~= s@);
        }
        match parse_u64_digits(s, 0) {
            Some(v) => {
                proof {
                    lemma_digits_val_nonneg(s@);
                    assert(v == digits_val(s@));
                }
                if v <= i32::MAX as u64 {
                    Some(v as i32)
                } else {
                    None
                }
            },
            None => {
                proof {
                    if s@.len() > 0 && all_digits(s@) {
                        lemma_digits_val_nonneg(s@);
                    }
                }
                None
            },
        }
    }
}

/// The nanoseconds since the Unix epoch denoted by a timestamp written as
/// `YYYY-MM-DD HH:MM:SS` with an optional fraction, read as UTC; `None` where
/// the text does not parse or the instant does not fit 64 bits of
/// nanoseconds. The result depends on the characters alone.
pub uninterp spec fn timestamp_nanos_of(s: Seq<char>) -> Option<i64>;

/// Relies on chrono: NaiveDateTime::parse_from_str with format
/// `%Y-%m-%d %H:%M:%S%.f`, the UTC reading through and_utc, and
/// DateTime::timestamp_nanos_opt. All three are pure functions of the text,
/// so their composite outcome is a function of the characters alone.
#[verifier::external_body]
pub(crate) fn parse_timestamp_nanos(s: &str) -> (r: Option<i64>)
    ensures
        r == timestamp_nanos_of(s@),
{
    match chrono::NaiveDateTime::parse_from_str(s, "%Y-%m-%d %H:%M:%S%.f") {
        Ok(dt) => dt.and_utc().timestamp_nanos_opt(),
        Err(_) => None,
    }
}


/// One field of an upstream row tuple: null, an unchanged TOAST datum, or
/// text bytes to interpret by the column's type.
#[derive(Debug)]
pub enum TupleCell {
    Null,
    UnchangedToast,
    Text(Vec<u8>),
}

/// Why a tuple field could not be turned into a value.
#[derive(Debug, Clone, Copy, PartialEq, Eq, Structural)]
pub enum TupleError {
    UnchangedToast,
    InvalidUtf8,
    NotAnInteger,
    BadTimestamp,
    UnsupportedType(u32),
    WrongArity,
}

/// The value denoted by one tuple field under a column type, or the error
/// that rejects it: unchanged TOAST data and unsupported column types are
/// fatal, text must be UTF-8, integers and timestamps must parse.
pub open spec fn spec_cell_val(oid: u32, cell: TupleCell) -> Result<ValModel, TupleError> {
    match cell {
        TupleCell::Null => Ok(ValModel::Null),
        TupleCell::UnchangedToast => Err(TupleError::UnchangedToast),
        TupleCell::Text(bytes) => if !vstd::utf8::valid_utf8(bytes@) {
            Err(TupleError::InvalidUtf8)
        } else {
            let s = vstd::utf8::decode_utf8(bytes@);
            if oid == OID_INT4 {
                match spec_parse_i32(s) {
                    Some(v) => Ok(ValModel::Int(v as i128)),
                    None => Err(TupleError::NotAnInteger),
                }
            } else if oid == OID_VARCHAR {
                Ok(ValModel::Text(s))
            } else if oid == OID_TIMESTAMP {
                match timestamp_nanos_of(s) {
                    Some(n) => Ok(ValModel::Int(n as i128)),
                    None => Err(TupleError::BadTimestamp),
                }
            } else {
                Err(TupleError::UnsupportedType(oid))
            }
        },
    }
}

/// Interprets one tuple field under a column type.
pub fn get_val_from_tuple_data(oid: u32, cell: &TupleCell) -> (r: Result<Value, TupleError>)
    ensures
        match r {
            Ok(v) => spec_cell_val(oid, *cell) == Ok::<ValModel, TupleError>(v@),
            Err(e) => spec_cell_val(oid, *cell) == Err::<ValModel, TupleError>(e),
        },
{
    match cell {
        TupleCell::Null => Ok(Value::Null),
        TupleCell::UnchangedToast => Err(TupleError::UnchangedToast),
        TupleCell::Text(bytes) => {
            match crate::codec::utf8_to_string(bytes.as_slice()) {
                None => Err(TupleError::InvalidUtf8),
                Some(text) => {
                    proof {
                        vstd::utf8::encode_utf8_decode_utf8(text@);
                    }
                    if oid == OID_INT4 {
                        match parse_i32_text(text.as_str()) {
                            Some(v) => Ok(Value::Int(v as i128)),
                            None => Err(TupleError::NotAnInteger),
                        }
                    } else if oid == OID_VARCHAR {
                        Ok(Value::Text(text))
                    } else if oid == OID_TIMESTAMP {
                        match parse_timestamp_nanos(text.as_str()) {
                            Some(n) => Ok(Value::Int(n as i128)),
                            None => Err(TupleError::BadTimestamp),
                        }
                    } else {
                        Err(TupleError::UnsupportedType(oid))
                    }
                },
            }
        },
    }
}

/// The row entries from attribute `i` on: each column name paired with the
/// value of its field, stopping at the first rejected field.
pub open spec fn spec_row_entries(attrs: Seq<Attribute>, cells: Seq<TupleCell>, i: int) -> Result<
    Seq<(Seq<char>, ValModel)>,
    TupleError,
>
    decreases attrs.len() - i,
    when 0 <= i
{
    if i >= attrs.len() || cells.len() != attrs.len() {
        Ok(Seq::empty())
    } else {
        match spec_cell_val(attrs[i].type_oid, cells[i]) {
            Err(e) => Err(e),
            Ok(v) => match spec_row_entries(attrs, cells, i + 1) {
                Err(e) => Err(e),
                Ok(rest) => Ok(seq![(attrs[i].name@, v)] + rest),
            },
        }
    }
}

/// The payload of a row event: one entry per attribute, in attribute order,
/// or the error of the first field that is rejected. A tuple whose arity
/// differs from the schema is rejected.
pub open spec fn spec_row_data(schema: TableSchema, cells: Seq<TupleCell>) -> Result<
    ValModel,
    TupleError,
> {
    if cells.len() != schema.attributes@.len() {
        Err(TupleError::WrongArity)
    } else {
        match spec_row_entries(schema.attributes@, cells, 0) {
            Ok(es) => Ok(ValModel::Dict(es)),
            Err(e) => Err(e),
        }
    }
}

/// Decodes one row tuple under a table schema into the payload of a row
/// event.
#[verifier::loop_isolation(false)]
pub fn get_data(schema: &TableSchema, cells: &Vec<TupleCell>) -> (r: Result<Value, TupleError>)
    ensures
        match r {
            Ok(v) => spec_row_data(*schema, cells@) == Ok::<ValModel, TupleError>(v@),
            Err(e) => spec_row_data(*schema, cells@) == Err::<ValModel, TupleError>(e),
        },
{
    let attrs = &schema.attributes;
    if cells.len() != attrs.len() {
        return Err(TupleError::WrongArity);
    }
    let mut acc: Vec<(String, Value)> = Vec::new();
    let mut i: usize = 0;
    proof {
        assert(pairs_view(acc@) =~= Seq::<(Seq<char>, ValModel)>::empty());
    }
    while i < attrs.len()
        invariant
            i <= attrs@.len(),
            spec_row_entries(attrs@, cells@, 0) == (match spec_row_entries(
                attrs@,
                cells@,
                i as int,
            ) {
                Err(e) => Err::<Seq<(Seq<char>, ValModel)>, TupleError>(e),
                Ok(rest) => Ok(pairs_view(acc@) + rest),
            }),
        decreases attrs@.len() - i,
    {
        let cell_val = get_val_from_tuple_data(attrs[i].type_oid, &cells[i]);
        match cell_val {
            Err(e) => {
                proof {
                    assert(spec_row_entries(attrs@, cells@, i as int) == Err::<
                        Seq<(Seq<char>, ValModel)>,
                        TupleError,
                    >(e));
                }
                return Err(e);
            },
            Ok(v) => {
                let ghost vv = v@;
                let name = attrs[i].name.clone();
                proof {
                    lemma_pairs_view_snoc(acc@, (name, v));
                    match spec_row_entries(attrs@, cells@, i + 1) {
                        Err(e) => {}
                        Ok(rest) => {
                            assert(pairs_view(acc@) + (seq![(attrs@[i as int].name@, vv)] + rest)
                                =~= pairs_view(acc@.push((name, v))) + rest);
                        }
                    }
                }
                acc.push((name, v));
                i += 1;
            },
        }
    }
    proof {
        assert(spec_row_entries(attrs@, cells@, attrs@.len() as int) == Ok::<
            Seq<(Seq<char>, ValModel)>,
            TupleError,
        >(Seq::empty()));
        assert(pairs_view(acc@) + Seq::<(Seq<char>, ValModel)>::empty() =~= pairs_view(acc@));
    }
    Ok(Value::Dict(acc))
}

/// The fields read from an upstream transaction-begin message.
#[derive(Debug, Clone, Copy)]
pub struct BeginData {
    pub final_lsn: u64,
    pub timestamp: i64,
    pub xid: u32,
}

/// The fields read from an upstream transaction-commit message.
#[derive(Debug, Clone, Copy)]
pub struct CommitData {
    pub commit_lsn: u64,
    pub end_lsn: u64,
    pub timestamp: i64,
    pub flags: i8,
}

/// One column description from an upstream relation message.
#[derive(Debug)]
pub struct RelationColumn {
    pub name: String,
    pub flags: i8,
    pub type_id: i32,
    pub type_modifier: i32,
}

/// The fields read from an upstream relation message.
#[derive(Debug)]
pub struct RelationData {
    pub rel_id: u32,
    pub namespace: String,
    pub name: String,
    pub columns: Vec<RelationColumn>,
}

/// The payload of a begin event.
pub open spec fn spec_begin_event_data(b: BeginData) -> ValModel {
    ValModel::Dict(
        seq![
            ("final_lsn"@, ValModel::Int(b.final_lsn as i128)),
            ("timestamp"@, ValModel::Int(b.timestamp as i128)),
            ("xid"@, ValModel::Int(b.xid as i128)),
        ],
    )
}

/// The payload of a commit event.
pub open spec fn spec_commit_event_data(c: CommitData) -> ValModel {
    ValModel::Dict(
        seq![
            ("commit_lsn"@, ValModel::Int(c.commit_lsn as i128)),
            ("end_lsn"@, ValModel::Int(c.end_lsn as i128)),
            ("timestamp"@, ValModel::Int(c.timestamp as i128)),
            ("flags"@, ValModel::Int(c.flags as i128)),
        ],
    )
}

/// One column of a relation event payload. A column belongs to the replica
/// identity exactly when its flags field is one.
pub open spec fn spec_relation_column(c: RelationColumn) -> ValModel {
    ValModel::Dict(
        seq![
            ("name"@, ValModel::Text(c.name@)),
            ("identity"@, ValModel::Bool(c.flags == 1)),
            ("type_id"@, ValModel::Int(c.type_id as i128)),
            ("type_modifier"@, ValModel::Int(c.type_modifier as i128)),
        ],
    )
}

/// The payload of a relation event.
pub open spec fn spec_relation_event_data(r: RelationData) -> ValModel {
    ValModel::Dict(
        seq![
            ("schema"@, ValModel::Text(r.namespace@)),
            ("table"@, ValModel::Text(r.name@)),
            (
                "columns"@,
                ValModel::Array(
                    Seq::new(r.columns@.len(), |i: int| spec_relation_column(r.columns@[i])),
                ),
            ),
        ],
    )
}

/// One column of a schema event payload.
pub open spec fn spec_schema_column(a: Attribute) -> ValModel {
    ValModel::Dict(
        seq![
            ("name"@, ValModel::Text(a.name@)),
            ("identity"@, ValModel::Bool(a.identity)),
            ("nullable"@, ValModel::Bool(a.nullable)),
            ("type_id"@, ValModel::Int(a.type_oid as i128)),
            ("type_modifier"@, ValModel::Int(a.type_modifier as i128)),
        ],
    )
}

/// The payload of the schema event that opens a table's snapshot.
pub open spec fn spec_schema_event_data(ts: TableSchema) -> ValModel {
    ValModel::Dict(
        seq![
            ("schema"@, ValModel::Text(ts.table.schema@)),
            ("table"@, ValModel::Text(ts.table.name@)),
            (
                "columns"@,
                ValModel::Array(
                    Seq::new(ts.attributes@.len(), |i: int| spec_schema_column(ts.attributes@[i])),
                ),
            ),
        ],
    )
}

/// The payload of a begin event, built from an upstream begin message.
pub fn begin_body_to_event_data(b: &BeginData) -> (v: Value)
    ensures
        v@ == spec_begin_event_data(*b),
{
    let mut m: Vec<(String, Value)> = Vec::new();
    m.push((String::from_str("final_lsn"), Value::Int(b.final_lsn as i128)));
    m.push((String::from_str("timestamp"), Value::Int(b.timestamp as i128)));
    m.push((String::from_str("xid"), Value::Int(b.xid as i128)));
    proof {
        lemma_pairs_view_index(m@);
        assert(pairs_view(m@)[0] == (m@[0].0@, val_view(m@[0].1)));
        assert(pairs_view(m@)[1] == (m@[1].0@, val_view(m@[1].1)));
        assert(pairs_view(m@)[2] == (m@[2].0@, val_view(m@[2].1)));
        assert(pairs_view(m@) =~= match spec_begin_event_data(*b) {
            ValModel::Dict(s) => s,
            _ => Seq::empty(),
        });
    }
    Value::Dict(m)
}

/// The payload of a commit event, built from an upstream commit message.
pub fn commit_body_to_event_data(c: &CommitData) -> (v: Value)
    ensures
        v@ == spec_commit_event_data(*c),
{
    let mut m: Vec<(String, Value)> = Vec::new();
    m.push((String::from_str("commit_lsn"), Value::Int(c.commit_lsn as i128)));
    m.push((String::from_str("end_lsn"), Value::Int(c.end_lsn as i128)));
    m.push((String::from_str("timestamp"), Value::Int(c.timestamp as i128)));
    m.push((String::from_str("flags"), Value::Int(c.flags as i128)));
    proof {
        lemma_pairs_view_index(m@);
        assert(pairs_view(m@)[0] == (m@[0].0@, val_view(m@[0].1)));
        assert(pairs_view(m@)[1] == (m@[1].0@, val_view(m@[1].1)));
        assert(pairs_view(m@)[2] == (m@[2].0@, val_view(m@[2].1)));
        assert(pairs_view(m@)[3] == (m@[3].0@, val_view(m@[3].1)));
        assert(pairs_view(m@) =~= match spec_commit_event_data(*c) {
            ValModel::Dict(s) => s,
            _ => Seq::empty(),
        });
    }
    Value::Dict(m)
}

/// One column of a relation event payload.
fn relation_column_to_value(c: &RelationColumn) -> (v: Value)
    ensures
        v@ == spec_relation_column(*c),
{
    let mut m: Vec<(String, Value)> = Vec::new();
    m.push((String::from_str("name"), Value::Text(c.name.clone())));
    m.push((String::from_str("identity"), Value::Bool(c.flags == 1)));
    m.push((String::from_str("type_id"), Value::Int(c.type_id as i128)));
    m.push((String::from_str("type_modifier"), Value::Int(c.type_modifier as i128)));
    proof {
        lemma_pairs_view_index(m@);
        assert(pairs_view(m@)[0] == (m@[0].0@, val_view(m@[0].1)));
        assert(pairs_view(m@)[1] == (m@[1].0@, val_view(m@[1].1)));
        assert(pairs_view(m@)[2] == (m@[2].0@, val_view(m@[2].1)));
        assert(pairs_view(m@)[3] == (m@[3].0@, val_view(m@[3].1)));
        assert(pairs_view(m@) =~= match spec_relation_column(*c) {
            ValModel::Dict(s) => s,
            _ => Seq::empty(),
        });
    }
    Value::Dict(m)
}

/// The payload of a relation event, built from an upstream relation message.
#[verifier::loop_isolation(false)]
pub fn relation_body_to_event_data(r: &RelationData) -> (v: Value)
    ensures
        v@ == spec_relation_event_data(*r),
{
    let mut cols: Vec<Value> = Vec::new();
    let mut i: usize = 0;
    while i < r.columns.len()
        invariant
            i <= r.columns@.len(),
            vals_view(cols@).len() == i,
            forall|j: int|
                0 <= j < i ==> vals_view(cols@)[j] == spec_relation_column(
                    #[trigger] r.columns@[j],
                ),
        decreases r.columns@.len() - i,
    {
        let cv = relation_column_to_value(&r.columns[i]);
        proof {
            lemma_vals_view_snoc(cols@, cv);
        }
        cols.push(cv);
        i += 1;
    }
    let mut m: Vec<(String, Value)> = Vec::new();
    m.push((String::from_str("schema"), Value::Text(r.namespace.clone())));
    m.push((String::from_str("table"), Value::Text(r.name.clone())));
    m.push((String::from_str("columns"), Value::Array(cols)));
    proof {
        lemma_pairs_view_index(m@);
        assert(pairs_view(m@)[0] == (m@[0].0@, val_view(m@[0].1)));
        assert(pairs_view(m@)[1] == (m@[1].0@, val_view(m@[1].1)));
        assert(pairs_view(m@)[2] == (m@[2].0@, val_view(m@[2].1)));
        assert(match m@[2].1 {
            Value::Array(a) => vals_view(a@) =~= Seq::new(
                r.columns@.len(),
                |i: int| spec_relation_column(r.columns@[i]),
            ),
            _ => false,
        });
        assert(pairs_view(m@) =~= match spec_relation_event_data(*r) {
            ValModel::Dict(s) => s,
            _ => Seq::empty(),
        });
    }
    Value::Dict(m)
}

/// One column of a schema event payload.
fn schema_column_to_value(a: &Attribute) -> (v: Value)
    ensures
        v@ == spec_schema_column(*a),
{
    let mut m: Vec<(String, Value)> = Vec::new();
    m.push((String::from_str("name"), Value::Text(a.name.clone())));
    m.push((String::from_str("identity"), Value::Bool(a.identity)));
    m.push((String::from_str("nullable"), Value::Bool(a.nullable)));
    m.push((String::from_str("type_id"), Value::Int(a.type_oid as i128)));
    m.push((String::from_str("type_modifier"), Value::Int(a.type_modifier as i128)));
    proof {
        lemma_pairs_view_index(m@);
        assert(pairs_view(m@)[0] == (m@[0].0@, val_view(m@[0].1)));
        assert(pairs_view(m@)[1] == (m@[1].0@, val_view(m@[1].1)));
        assert(pairs_view(m@)[2] == (m@[2].0@, val_view(m@[2].1)));
        assert(pairs_view(m@)[3] == (m@[3].0@, val_view(m@[3].1)));
        assert(pairs_view(m@)[4] == (m@[4].0@, val_view(m@[4].1)));
        assert(pairs_view(m@) =~= match spec_schema_column(*a) {
            ValModel::Dict(s) => s,
            _ => Seq::empty(),
        });
    }
    Value::Dict(m)
}

/// The payload of the schema event that opens a table's snapshot.
#[verifier::loop_isolation(false)]
pub fn table_schema_to_event_data(ts: &TableSchema) -> (v: Value)
    ensures
        v@ == spec_schema_event_data(*ts),
{
    let mut cols: Vec<Value> = Vec::new();
    let mut i: usize = 0;
    while i < ts.attributes.len()
        invariant
            i <= ts.attributes@.len(),
            vals_view(cols@).len() == i,
            forall|j: int|
                0 <= j < i ==> vals_view(cols@)[j] == spec_schema_column(
                    #[trigger] ts.attributes@[j],
                ),
        decreases ts.attributes@.len() - i,
    {
        let cv = schema_column_to_value(&ts.attributes[i]);
        proof {
            lemma_vals_view_snoc(cols@, cv);
        }
        cols.push(cv);
        i += 1;
    }
    let mut m: Vec<(String, Value)> = Vec::new();
    m.push((String::from_str("schema"), Value::Text(ts.table.schema.clone())));
    m.push((String::from_str("table"), Value::Text(ts.table.name.clone())));
    m.push((String::from_str("columns"), Value::Array(cols)));
    proof {
        lemma_pairs_view_index(m@);
        assert(pairs_view(m@)[0] == (m@[0].0@, val_view(m@[0].1)));
        assert(pairs_view(m@)[1] == (m@[1].0@, val_view(m@[1].1)));
        assert(pairs_view(m@)[2] == (m@[2].0@, val_view(m@[2].1)));
        assert(match m@[2].1 {
            Value::Array(a) => vals_view(a@) =~= Seq::new(
                ts.attributes@.len(),
                |i: int| spec_schema_column(ts.attributes@[i]),
            ),
            _ => false,
        });
        assert(pairs_view(m@) =~= match spec_schema_event_data(*ts) {
            ValModel::Dict(s) => s,
            _ => Seq::empty(),
        });
    }
    Value::Dict(m)
}

} // verus!
