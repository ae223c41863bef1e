//! Table identity and column metadata of the published tables, as reported by
//! the source at the snapshot point and kept for the process lifetime.

use vstd::prelude::*;

verus! {

broadcast use vstd::std_specs::vec::group_vec_axioms, vstd::seq::group_seq_axioms;

/// Column type for 32-bit signed integers.
pub const OID_INT4: u32 = 23;

/// Column type for variable-length character strings.
pub const OID_VARCHAR: u32 = 1043;

/// Column type for timestamps without time zone.
pub const OID_TIMESTAMP: u32 = 1114;

/// A table is a schema name and a table name, both non-empty.
#[derive(Debug)]
pub struct Table {
    pub schema: String,
    pub name: String,
}

/// One column: its name, type, type modifier, and whether it belongs to the
/// replica identity and admits nulls.
#[derive(Debug)]
pub struct Attribute {
    pub name: String,
    pub type_oid: u32,
    pub type_modifier: i32,
    pub identity: bool,
    pub nullable: bool,
}

/// The published shape of one table. Attribute order is the column order
/// reported by the source and governs row decoding.
#[derive(Debug)]
pub struct TableSchema {
    pub relation_id: u32,
    pub table: Table,
    pub attributes: Vec<Attribute>,
}

/// Whether some schema in the sequence carries the relation id.
pub open spec fn spec_has_relation(schemas: Seq<TableSchema>, rel_id: u32) -> bool {
    exists|i: int| 0 <= i < schemas.len() && (#[trigger] schemas[i]).relation_id == rel_id
}

/// The index of the first schema carrying the relation id.
pub open spec fn spec_relation_index(schemas: Seq<TableSchema>, rel_id: u32) -> int {
    choose|i: int| 0 <= i < schemas.len() && (#[trigger] schemas[i]).relation_id == rel_id
}

/// Looks up the schema for a relation id; `None` exactly when no schema in
/// the set carries it.
pub fn find_schema(schemas: &Vec<TableSchema>, rel_id: u32) -> (r: Option<&TableSchema>)
    ensures
        match r {
            Some(s) => spec_has_relation(schemas@, rel_id) && s.relation_id == rel_id && (exists|
                i: int,
            | 0 <= i < schemas@.len() && *s == #[trigger] schemas@[i]),
            None => !spec_has_relation(schemas@, rel_id),
        },
{
    let mut i: usize = 0;
    while i < schemas.len()
        invariant
            i <= schemas@.len(),
            forall|j: int| 0 <= j < i ==> (#[trigger] schemas@[j]).relation_id != rel_id,
        decreases schemas@.len() - i,
    {
        if schemas[i].relation_id == rel_id {
            return Some(&schemas[i]);
        }
        i += 1;
    }
    None
}

} // verus!
