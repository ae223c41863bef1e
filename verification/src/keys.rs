//! Object keys of the sink: snapshot chunks and their `done` marker under a
//! per-table prefix, stream chunks under a numeric prefix, and the recovery
//! of the largest stream chunk number from a key listing.

use vstd::prelude::*;
use crate::schema::Table;
use crate::convert::{
    spec_parse_u32, parse_u32_digits, digits_val, all_digits, digit_val, lemma_digits_val_nonneg,
};

verus! {

broadcast use vstd::std_specs::vec::group_vec_axioms, vstd::seq::group_seq_axioms;

/// The decimal digit character of one digit value.
pub open spec fn digit_char(d: u32) -> char
    recommends
        d < 10,
{
    if d == 0 {
        '0'
    } else if d == 1 {
        '1'
    } else if d == 2 {
        '2'
    } else if d == 3 {
        '3'
    } else if d == 4 {
        '4'
    } else if d == 5 {
        '5'
    } else if d == 6 {
        '6'
    } else if d == 7 {
        '7'
    } else if d == 8 {
        '8'
    } else {
        '9'
    }
}

/// The decimal digits of `n`, most significant first, without leading zeros.
pub open spec fn u32_dec_chars(n: u32) -> Seq<char>
    decreases n,
{
    if n < 10 {
        seq![digit_char(n)]
    } else {
        u32_dec_chars(n / 10).push(digit_char(n % 10))
    }
}

/// The rendered digits of `n` denote `n` and nothing else.
pub proof fn lemma_u32_dec_chars_val(n: u32)
    ensures
        all_digits(u32_dec_chars(n)),
        u32_dec_chars(n).len() > 0,
        digits_val(u32_dec_chars(n)) == n,
        spec_parse_u32(u32_dec_chars(n)) == Some(n),
    decreases n,
{
    if n < 10 {
        assert(u32_dec_chars(n) == seq![digit_char(n)]);
        assert(dec_digit_char(n));
        let one = seq![digit_char(n)];
        assert(one.drop_last() =~= Seq::<char>::empty());
        assert(digits_val(Seq::<char>::empty()) == 0);
        assert(one.last() == digit_char(n));
        assert(digits_val(one) == digit_val(digit_char(n)));
    } else {
        lemma_u32_dec_chars_val(n / 10);
        let s = u32_dec_chars(n / 10);
        let c = digit_char(n % 10);
        assert(dec_digit_char(n % 10));
        assert(s.push(c).drop_last() =~= s);
        assert(s.push(c).last() == c);
        assert(digits_val(s.push(c)) == digits_val(s) * 10 + digit_val(c));
        assert(forall|i: int|
            0 <= i < s.push(c).len() ==> crate::convert::dec_digit(#[trigger] s.push(c)[i]));
    }
}

/// A digit value below ten renders as a digit character of that value.
pub open spec fn dec_digit_char(d: u32) -> bool {
    d < 10 ==> (crate::convert::dec_digit(digit_char(d)) && digit_val(digit_char(d)) == d)
}

/// Renders `n` in decimal.
pub fn u32_to_decimal(n: u32) -> (r: String)
    ensures
        r@ == u32_dec_chars(n),
    decreases n,
{
    proof {
        reveal_strlit("0");
        reveal_strlit("1");
        reveal_strlit("2");
        reveal_strlit("3");
        reveal_strlit("4");
        reveal_strlit("5");
        reveal_strlit("6");
        reveal_strlit("7");
        reveal_strlit("8");
        reveal_strlit("9");
    }
    let d = n % 10;
    let ds: &str = if d == 0 {
        "0"
    } else if d == 1 {
        "1"
    } else if d == 2 {
        "2"
    } else if d == 3 {
        "3"
    } else if d == 4 {
        "4"
    } else if d == 5 {
        "5"
    } else if d == 6 {
        "6"
    } else if d == 7 {
        "7"
    } else if d == 8 {
        "8"
    } else {
        "9"
    };
    proof {
        assert(ds@ =~= seq![digit_char(n % 10)]);
    }
    if n < 10 {
        String::from_str(ds)
    } else {
        let mut s = u32_to_decimal(n / 10);
        s.append(ds);
        proof {
            assert(s@ =~= u32_dec_chars(n));
        }
        s
    }
}

/// The key prefix of stream chunks.
pub fn realtime_prefix() -> (r: String)
    ensures
        r@ == "realtime_changes/"@,
{
    String::from_str("realtime_changes/")
}

/// The key of stream chunk number `n`.
pub open spec fn spec_realtime_chunk_key(n: u32) -> Seq<char> {
    "realtime_changes/"@ + u32_dec_chars(n)
}

/// The key of stream chunk number `n`.
pub fn realtime_chunk_key(n: u32) -> (r: String)
    ensures
        r@ == spec_realtime_chunk_key(n),
{
    let mut s = realtime_prefix();
    let num = u32_to_decimal(n);
    s.append(num.as_str());
    s
}

/// The key prefix of one table's snapshot objects.
pub open spec fn spec_table_copy_prefix(t: Table) -> Seq<char> {
    "table_copies/"@ + t.schema@ + "."@ + t.name@
}

/// The key prefix of one table's snapshot objects.
pub fn get_table_copy_prefix(t: &Table) -> (r: String)
    ensures
        r@ == spec_table_copy_prefix(*t),
{
    let mut s = String::from_str("table_copies/");
    s.append(t.schema.as_str());
    s.append(".");
    s.append(t.name.as_str());
    s
}

/// The key of the empty object that marks one table's snapshot complete.
pub open spec fn spec_done_object_path(t: Table) -> Seq<char> {
    spec_table_copy_prefix(t) + "/done"@
}

/// The key of the empty object that marks one table's snapshot complete.
pub fn get_done_object_path(t: &Table) -> (r: String)
    ensures
        r@ == spec_done_object_path(*t),
{
    let mut s = get_table_copy_prefix(t);
    s.append("/done");
    s
}

/// The key of snapshot chunk number `n` of one table.
pub open spec fn spec_table_chunk_key(t: Table, n: u32) -> Seq<char> {
    spec_table_copy_prefix(t) + "/"@ + u32_dec_chars(n)
}

/// The key of snapshot chunk number `n` of one table.
pub fn table_chunk_key(t: &Table, n: u32) -> (r: String)
    ensures
        r@ == spec_table_chunk_key(*t, n),
{
    let mut s = get_table_copy_prefix(t);
    s.append("/");
    let num = u32_to_decimal(n);
    s.append(num.as_str());
    proof {
        assert(s@ =~= spec_table_chunk_key(*t, n));
    }
    s
}

/// Whether `p` is a prefix of `k`.
pub open spec fn spec_has_prefix(k: Seq<char>, p: Seq<char>) -> bool {
    k.len() >= p.len() && k.subrange(0, p.len() as int) == p
}

/// The stream chunk number denoted by a key, if the key is the prefix
/// followed by the digits of a 32-bit number.
pub open spec fn spec_key_number(k: Seq<char>) -> Option<u32> {
    if spec_has_prefix(k, "realtime_changes/"@) {
        spec_parse_u32(k.subrange("realtime_changes/"@.len() as int, k.len() as int))
    } else {
        None
    }
}

/// Whether `k` starts with `p`.
#[verifier::loop_isolation(false)]
fn str_has_prefix(k: &str, p: &str) -> (r: bool)
    ensures
        r == spec_has_prefix(k@, p@),
{
    let klen = k.unicode_len();
    let plen = p.unicode_len();
    if klen < plen {
        return false;
    }
    let mut i: usize = 0;
    while i < plen
        invariant
            i <= plen,
            forall|j: int| 0 <= j < i ==> k@[j] == p@[j],
        decreases plen - i,
    {
        if k.get_char(i) != p.get_char(i) {
            proof {
                assert(k@.subrange(0, p@.len() as int)[i as int] != p@[i as int]);
            }
            return false;
        }
        i += 1;
    }
    proof {
        assert(k@.subrange(0, p@.len() as int) =~= p@);
    }
    true
}

/// The stream chunk number of one key.
pub fn key_number(k: &str) -> (r: Option<u32>)
    ensures
        r == spec_key_number(k@),
{
    let prefix = realtime_prefix();
    if !str_has_prefix(k, prefix.as_str()) {
        return None;
    }
    let plen = prefix.as_str().unicode_len();
    let klen = k.unicode_len();
    let suffix = k.substring_char(plen, klen);
    parse_u32_digits(suffix)
}

/// The largest stream chunk number among the listed keys: `None` where the
/// listing is empty, an error where some key is not a numbered stream chunk
/// key.
pub open spec fn spec_largest_number(keys: Seq<String>) -> Result<Option<u32>, ()>
    decreases keys.len(),
{
    if keys.len() == 0 {
        Ok(None)
    } else {
        match spec_largest_number(keys.drop_last()) {
            Err(e) => Err(e),
            Ok(prev) => match spec_key_number(keys.last()@) {
                None => Err(()),
                Some(n) => match prev {
                    None => Ok(Some(n)),
                    Some(p) => Ok(Some(if n > p {
                        n
                    } else {
                        p
                    })),
                },
            },
        }
    }
}

/// A rejected key anywhere in a listing rejects the whole listing.
pub proof fn lemma_largest_err_extends(keys: Seq<String>, j: int)
    requires
        0 <= j <= keys.len(),
        spec_largest_number(keys.take(j)) is Err,
    ensures
        spec_largest_number(keys) is Err,
    decreases keys.len() - j,
{
    if j == keys.len() {
        assert(keys.take(j) =~= keys);
    } else {
        assert(keys.take(j + 1).drop_last() =~= keys.take(j));
        lemma_largest_err_extends(keys, j + 1);
    }
}

/// The largest numbered stream chunk among the listed keys. `None` means the
/// listing was empty; an error means some key under the stream prefix was not
/// a numbered chunk key.
#[verifier::loop_isolation(false)]
pub fn largest_realtime_file_number(keys: &Vec<String>) -> (r: Result<Option<u32>, ()>)
    ensures
        r == spec_largest_number(keys@),
{
    let mut largest: Option<u32> = None;
    let mut i: usize = 0;
    while i < keys.len()
        invariant
            i <= keys@.len(),
            Ok::<Option<u32>, ()>(largest) == spec_largest_number(keys@.take(i as int)),
        decreases keys@.len() - i,
    {
        proof {
            assert(keys@.take(i + 1).drop_last() =~= keys@.take(i as int));
            assert(keys@.take(i + 1).last() == keys@[i as int]);
        }
        match key_number(keys[i].as_str()) {
            None => {
                proof {
                    assert(spec_largest_number(keys@.take(i + 1)) is Err);
                    lemma_largest_err_extends(keys@, i + 1);
                }
                return Err(());
            },
            Some(n) => {
                match largest {
                    None => {
                        largest = Some(n);
                    },
                    Some(p) => {
                        if n > p {
                            largest = Some(n);
                        }
                    },
                }
            },
        }
        i += 1;
    }
    proof {
        assert(keys@.take(keys@.len() as int) =~= keys@);
    }
    Ok(largest)
}

} // verus!
