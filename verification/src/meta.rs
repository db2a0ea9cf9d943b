//! Read-only projections of the catalog for the metadata endpoints: what a
//! caller may learn about an entity's columns.

use crate::catalog::{ColumnType, Entity, EntityV};
use vstd::prelude::*;

verus! {

/// What the metadata endpoints report of one column: its name, semantic
/// type, whether it belongs to the primary key, and its nullability.
pub struct ColumnMetaInfo {
    pub name: String,
    pub col_type: ColumnType,
    pub is_pk: bool,
    pub nullable: bool,
}

/// Whether column position `i` belongs to the entity's primary key.
pub open spec fn spec_is_pk(e: EntityV, i: int) -> bool {
    match e.primary_key {
        Some(pk) => pk.contains(i as usize),
        None => false,
    }
}

/// Whether a position occurs in a position list.
fn contains_position(pk: &Vec<usize>, i: usize) -> (r: bool)
    ensures
        r == pk@.contains(i),
{
    let n = pk.len();
    let mut j: usize = 0;
    while j < n
        invariant
            n == pk.len(),
            0 <= j <= n,
            forall|k: int| 0 <= k < j ==> pk@[k] != i,
        decreases n - j,
    {
        if pk[j] == i {
            return true;
        }
        j = j + 1;
    }
    proof {
        if pk@.contains(i) {
            let k = choose|k: int| 0 <= k < pk@.len() && pk@[k] == i;
            assert(false);
        }
    }
    false
}

/// Describe an entity's columns for the metadata endpoints: one entry per
/// column in catalog order, each carrying the column's name, semantic type,
/// primary-key membership and nullability.
pub fn column_meta(entity: &Entity) -> (r: Vec<ColumnMetaInfo>)
    ensures
        r@.len() == entity@.columns.len(),
        forall|i: int|
            0 <= i < r@.len() ==> {
                let c = entity@.columns[i];
                &&& (#[trigger] r@[i]).name@ == c.name
                &&& r@[i].col_type == c.col_type
                &&& r@[i].nullable == c.nullable
                &&& r@[i].is_pk == spec_is_pk(entity@, i)
            },
{
    let n = entity.columns.len();
    let mut out: Vec<ColumnMetaInfo> = Vec::new();
    let mut i: usize = 0;
    while i < n
        invariant
            n == entity.columns.len(),
            0 <= i <= n,
            out@.len() == i,
            forall|j: int|
                0 <= j < i ==> {
                    let c = entity@.columns[j];
                    &&& (#[trigger] out@[j]).name@ == c.name
                    &&& out@[j].col_type == c.col_type
                    &&& out@[j].nullable == c.nullable
                    &&& out@[j].is_pk == spec_is_pk(entity@, j)
                },
        decreases n - i,
    {
        let col = &entity.columns[i];
        let is_pk = match &entity.primary_key {
            Some(pk) => contains_position(pk, i),
            None => false,
        };
        proof {
            assert(entity@.columns[i as int] == entity.columns@[i as int]@);
        }
        out.push(
            ColumnMetaInfo {
                name: col.name.clone(),
                col_type: col.col_type,
                is_pk,
                nullable: col.nullable,
            },
        );
        i = i + 1;
    }
    out
}

} // verus!
