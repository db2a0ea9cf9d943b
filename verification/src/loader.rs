//! The catalog loader: four ordered passes that build the catalog from rows
//! of the backing store's system views.  The execution layer fetches the
//! rows; everything the loader decides — entity kinds, semantic column types
//! and widths, name normalization, primary-key and index resolution — happens
//! here.
//!
//! Rows referencing a schema or entity unknown to the already-built model are
//! dropped; an entity kind that cannot be mapped aborts the whole load.

use crate::catalog::{
    assoc_at, assoc_get, assoc_has, assoc_put, cols_v, indexes_v, Column, ColumnType, ColumnV,
    Entity, EntityType, EntityV, MetaInfo, MetaInfoV, Schema, SchemaV, SqlType, TableIndex,
    TableIndexV,
};
use crate::query::{col_idx, lemma_col_idx_from, str_views};
use vstd::prelude::*;

verus! {

/// The lower-cased form of a piece of text, as the Unicode lowercase mapping
/// of the standard library produces it.
pub uninterp spec fn lower_of(s: Seq<char>) -> Seq<char>;

/// Relies on str::to_lowercase: the result depends on the characters alone.
#[verifier::external_body]
fn to_lowercase(s: &str) -> (r: String)
    ensures
        r@ == lower_of(s@),
{
    s.to_lowercase()
}

/// Compare a string against a literal.
fn str_eq_lit(s: &String, lit: &str) -> (r: bool)
    ensures
        r == (s@ == lit@),
{
    let l = String::from_str(lit);
    *s == l
}

/// One row of the entities pass: a table or view with its owner.
pub struct OraTable {
    pub owner: String,
    pub table_name: String,
    pub table_type: String,
    pub num_rows: Option<u32>,
    pub temporary: String,
}

/// One row of the columns pass: a column with its native descriptor, in
/// ascending physical position order within its entity.
pub struct OraColumn {
    pub owner: String,
    pub table_name: String,
    pub column_name: String,
    pub data_type: String,
    pub data_length: u16,
    pub data_precision: Option<u8>,
    pub data_scale: Option<i8>,
    pub nullable: String,
}

/// One row of the primary-keys pass: one column of a key constraint, in
/// constraint position order.
pub struct OraPrimaryKey {
    pub owner: String,
    pub table_name: String,
    pub constraint_name: String,
    pub column_name: String,
}

/// One row of the indexes pass: one column of an index, in index position
/// order.
pub struct OraIndex {
    pub owner: String,
    pub table_name: String,
    pub index_name: String,
    pub uniqueness: String,
    pub column_name: String,
    pub descend: String,
}

/// A fatal load error: a row carried an entity kind the model cannot map.
#[derive(Debug)]
pub struct CatalogLoadError {
    pub kind: String,
}

impl CatalogLoadError {
    /// A description of the failure.
    pub fn message(&self) -> (r: String)
        ensures
            r@ == "unspecified entity type: "@ + self.kind@,
    {
        let mut m = String::from_str("unspecified entity type: ");
        m.append(self.kind.as_str());
        m
    }
}

/// The entity kind a row's type descriptor maps to, if any: a `TABLE` row is
/// a table (or a temporary table when flagged), a `VIEW` row is a view, and
/// anything else has no mapping.
pub open spec fn spec_entity_kind(table_type: Seq<char>, temporary: Seq<char>) -> Option<
    EntityType,
> {
    if table_type == "TABLE"@ {
        if temporary == "Y"@ {
            Some(EntityType::Temporary)
        } else {
            Some(EntityType::Table)
        }
    } else if table_type == "VIEW"@ {
        Some(EntityType::View)
    } else {
        None
    }
}

fn entity_kind(table_type: &String, temporary: &String) -> (r: Option<EntityType>)
    ensures
        r == spec_entity_kind(table_type@, temporary@),
{
    if str_eq_lit(table_type, "TABLE") {
        if str_eq_lit(temporary, "Y") {
            Some(EntityType::Temporary)
        } else {
            Some(EntityType::Table)
        }
    } else if str_eq_lit(table_type, "VIEW") {
        Some(EntityType::View)
    } else {
        None
    }
}

/// The semantic type, byte width and backend tag inferred from a native
/// column descriptor: character types map to `String` (a long-text column to
/// `String` with a fixed width budget), dates to `DateTime`, numbers with
/// scale zero to an `Integer` sized by precision (zero or above seven →
/// eight bytes, five to seven → four bytes, one to four → two bytes),
/// numbers with nonzero scale to `Number` with eight-byte semantics, and
/// anything else to `Unsupported` with zero width.
pub open spec fn spec_infer(
    data_type: Seq<char>,
    data_length: u16,
    precision: u8,
    scale: i8,
) -> (ColumnType, u16, SqlType) {
    if data_type == "CHAR"@ || data_type == "VARCHAR2"@ {
        (ColumnType::String, data_length, SqlType::Varchar2(data_length as u32))
    } else if data_type == "LONG"@ {
        (ColumnType::String, 4096u16, SqlType::Long)
    } else if data_type == "DATE"@ {
        (ColumnType::DateTime, 8u16, SqlType::Date)
    } else if data_type == "NUMBER"@ {
        if scale == 0 {
            if precision == 0 || precision > 7 {
                (ColumnType::Integer, 8u16, SqlType::Number(precision, scale))
            } else if precision > 4 {
                (ColumnType::Integer, 4u16, SqlType::Number(precision, scale))
            } else {
                (ColumnType::Integer, 2u16, SqlType::Number(precision, scale))
            }
        } else {
            (ColumnType::Number, 8u16, SqlType::Number(precision, scale))
        }
    } else {
        (ColumnType::Unsupported, 0u16, SqlType::UInt64)
    }
}

/// Type-mapping determinism for numeric columns: a number with scale zero
/// maps to an integer sized by precision — two bytes for precision one to
/// four, four bytes for five to seven, eight bytes for zero or eight and
/// above — and any nonzero scale maps to an eight-byte number, whatever the
/// precision.
pub proof fn lemma_number_type_mapping(data_length: u16, p: u8, s: i8)
    ensures
        ({
            let t = spec_infer("NUMBER"@, data_length, p, s);
            &&& (s == 0 && 1 <= p <= 4 ==> t == (
                ColumnType::Integer,
                2u16,
                SqlType::Number(p, s),
            ))
            &&& (s == 0 && 5 <= p <= 7 ==> t == (
                ColumnType::Integer,
                4u16,
                SqlType::Number(p, s),
            ))
            &&& (s == 0 && (p == 0 || p >= 8) ==> t == (
                ColumnType::Integer,
                8u16,
                SqlType::Number(p, s),
            ))
            &&& (s != 0 ==> t == (ColumnType::Number, 8u16, SqlType::Number(p, s)))
        }),
{
    reveal_strlit("NUMBER");
    reveal_strlit("CHAR");
    reveal_strlit("VARCHAR2");
    reveal_strlit("LONG");
    reveal_strlit("DATE");
    assert("NUMBER"@.len() == 6);
    assert("CHAR"@.len() == 4);
    assert("VARCHAR2"@.len() == 8);
    assert("LONG"@.len() == 4);
    assert("DATE"@.len() == 4);
}

/// The catalog column a columns-pass row loads as: name normalized, semantic
/// type, width and backend tag inferred from the native descriptor, and the
/// nullability flag decoded.
pub open spec fn spec_column_of(c: OraColumn) -> ColumnV {
    let p = match c.data_precision {
        Some(p) => p,
        None => 0u8,
    };
    let s = match c.data_scale {
        Some(s) => s,
        None => 0i8,
    };
    let inferred = spec_infer(c.data_type@, c.data_length, p, s);
    ColumnV {
        name: lower_of(c.column_name@),
        col_type: inferred.0,
        sql_type: inferred.2,
        col_size: inferred.1,
        nullable: c.nullable@ == "Y"@,
    }
}

/// Build the catalog column for one columns-pass row.
fn make_column(c: &OraColumn) -> (r: Column)
    ensures
        r@ == spec_column_of(*c),
{
    let p: u8 = match c.data_precision {
        Some(p) => p,
        None => 0,
    };
    let s: i8 = match c.data_scale {
        Some(s) => s,
        None => 0,
    };
    let name = to_lowercase(c.column_name.as_str());
    let nullable = str_eq_lit(&c.nullable, "Y");
    if str_eq_lit(&c.data_type, "CHAR") || str_eq_lit(&c.data_type, "VARCHAR2") {
        Column {
            name,
            col_type: ColumnType::String,
            sql_type: SqlType::Varchar2(c.data_length as u32),
            col_size: c.data_length,
            nullable,
        }
    } else if str_eq_lit(&c.data_type, "LONG") {
        Column {
            name,
            col_type: ColumnType::String,
            sql_type: SqlType::Long,
            col_size: 4096,
            nullable,
        }
    } else if str_eq_lit(&c.data_type, "DATE") {
        Column {
            name,
            col_type: ColumnType::DateTime,
            sql_type: SqlType::Date,
            col_size: 8,
            nullable,
        }
    } else if str_eq_lit(&c.data_type, "NUMBER") {
        let sql_type = SqlType::Number(p, s);
        if s == 0 {
            if p == 0 || p > 7 {
                Column { name, col_type: ColumnType::Integer, sql_type, col_size: 8, nullable }
            } else if p > 4 {
                Column { name, col_type: ColumnType::Integer, sql_type, col_size: 4, nullable }
            } else {
                Column { name, col_type: ColumnType::Integer, sql_type, col_size: 2, nullable }
            }
        } else {
            Column { name, col_type: ColumnType::Number, sql_type, col_size: 8, nullable }
        }
    } else {
        Column {
            name,
            col_type: ColumnType::Unsupported,
            sql_type: SqlType::UInt64,
            col_size: 0,
            nullable,
        }
    }
}

/// Find the position of `key` in an association vector.
fn find_pair_idx<T>(v: &Vec<(String, T)>, key: &String) -> (r: Option<usize>)
    ensures
        match r {
            Some(i) => i < v@.len() && v@[i as int].0@ == key@,
            None => forall|j: int| 0 <= j < v@.len() ==> v@[j].0@ != key@,
        },
{
    let n = v.len();
    let mut i: usize = 0;
    while i < n
        invariant
            n == v.len(),
            0 <= i <= n,
            forall|j: int| 0 <= j < i ==> v@[j].0@ != key@,
        decreases n - i,
    {
        if v[i].0 == *key {
            return Some(i);
        }
        i = i + 1;
    }
    None
}

/// The catalog after the entities pass has absorbed one row: the row's
/// schema and entity names are normalized, the entity starts with no
/// columns, key or indexes, and an entity seen twice is replaced.
pub open spec fn spec_apply_table(m: Seq<(Seq<char>, SchemaV)>, t: OraTable) -> Seq<
    (Seq<char>, SchemaV),
>
    recommends
        spec_entity_kind(t.table_type@, t.temporary@) is Some,
{
    let sname = lower_of(t.owner@);
    let ename = lower_of(t.table_name@);
    let e = EntityV {
        entity_type: spec_entity_kind(t.table_type@, t.temporary@)->Some_0,
        num_rows: t.num_rows,
        columns: Seq::empty(),
        primary_key: None,
        indexes: Seq::empty(),
    };
    let sch = if assoc_has(m, sname) {
        assoc_get(m, sname)
    } else {
        SchemaV { entities: Seq::empty() }
    };
    assoc_put(m, sname, SchemaV { entities: assoc_put(sch.entities, ename, e) })
}

/// The catalog the entities pass builds from its rows, or the first entity
/// kind it cannot map.
pub open spec fn spec_load_entities(rows: Seq<OraTable>) -> Result<
    Seq<(Seq<char>, SchemaV)>,
    Seq<char>,
>
    decreases rows.len(),
{
    if rows.len() == 0 {
        Ok(Seq::empty())
    } else {
        match spec_load_entities(rows.drop_last()) {
            Err(x) => Err(x),
            Ok(m) => {
                let t = rows.last();
                if spec_entity_kind(t.table_type@, t.temporary@) is None {
                    Err(t.table_type@)
                } else {
                    Ok(spec_apply_table(m, t))
                }
            },
        }
    }
}

/// Appending a brand-new schema that holds one brand-new entity is an
/// association update, and keeps the catalog well formed.
proof fn lemma_schema_insert(
    m0: Seq<(Seq<char>, SchemaV)>,
    m1: Seq<(Seq<char>, SchemaV)>,
    sname: Seq<char>,
    ename: Seq<char>,
    e: EntityV,
)
    requires
        (MetaInfoV { schemas: m0 }).wf(),
        !assoc_has(m0, sname),
        e.wf(),
        m1 == m0.push(
            (sname, (SchemaV { entities: Seq::<(Seq<char>, EntityV)>::empty().push((ename, e)) })),
        ),
    ensures
        m1 == assoc_put(
            m0,
            sname,
            (SchemaV { entities: assoc_put(Seq::<(Seq<char>, EntityV)>::empty(), ename, e) }),
        ),
        (MetaInfoV { schemas: m1 }).wf(),
{
    assert(!assoc_has(Seq::<(Seq<char>, EntityV)>::empty(), ename));
    let sch = SchemaV { entities: Seq::<(Seq<char>, EntityV)>::empty().push((ename, e)) };
    assert(sch.wf());
    assert(forall|i: int| 0 <= i < m0.len() ==> m1[i] == m0[i]);
    assert(MetaInfoV { schemas: m1 }.wf());
}

/// Appending a brand-new entity to an existing schema is a nested
/// association update, and keeps the catalog well formed.
proof fn lemma_entity_insert(
    m0: Seq<(Seq<char>, SchemaV)>,
    m1: Seq<(Seq<char>, SchemaV)>,
    si: int,
    sname: Seq<char>,
    ename: Seq<char>,
    e: EntityV,
)
    requires
        (MetaInfoV { schemas: m0 }).wf(),
        0 <= si < m0.len(),
        m0[si].0 == sname,
        !assoc_has(m0[si].1.entities, ename),
        e.wf(),
        m1 == m0.update(
            si,
            (sname, (SchemaV { entities: m0[si].1.entities.push((ename, e)) })),
        ),
    ensures
        m1 == assoc_put(
            m0,
            sname,
            (SchemaV { entities: assoc_put(assoc_get(m0, sname).entities, ename, e) }),
        ),
        (MetaInfoV { schemas: m1 }).wf(),
{
    assert(assoc_has(m0, sname));
    let j = assoc_at(m0, sname);
    assert(0 <= j < m0.len() && m0[j].0 == sname);
    if j != si {
        assert(false);
    }
    assert(assoc_get(m0, sname) == m0[si].1);
    let ents0 = m0[si].1.entities;
    let ents1 = ents0.push((ename, e));
    assert(m0[si].1.wf());
    assert(forall|i: int| 0 <= i < ents0.len() ==> ents1[i] == ents0[i]);
    assert(SchemaV { entities: ents1 }.wf());
    assert(forall|i: int| 0 <= i < m1.len() && i != si ==> m1[i] == m0[i]);
    assert(MetaInfoV { schemas: m1 }.wf());
}

/// Replacing the entity at a position of an existing schema is a nested
/// association update, and keeps the catalog well formed.
proof fn lemma_entity_update(
    m0: Seq<(Seq<char>, SchemaV)>,
    m1: Seq<(Seq<char>, SchemaV)>,
    si: int,
    ei: int,
    sname: Seq<char>,
    ename: Seq<char>,
    e: EntityV,
)
    requires
        (MetaInfoV { schemas: m0 }).wf(),
        0 <= si < m0.len(),
        m0[si].0 == sname,
        0 <= ei < m0[si].1.entities.len(),
        m0[si].1.entities[ei].0 == ename,
        e.wf(),
        m1 == m0.update(
            si,
            (sname, (SchemaV { entities: m0[si].1.entities.update(ei, (ename, e)) })),
        ),
    ensures
        m1 == assoc_put(
            m0,
            sname,
            (SchemaV { entities: assoc_put(assoc_get(m0, sname).entities, ename, e) }),
        ),
        (MetaInfoV { schemas: m1 }).wf(),
{
    assert(assoc_has(m0, sname));
    let j = assoc_at(m0, sname);
    assert(0 <= j < m0.len() && m0[j].0 == sname);
    if j != si {
        assert(false);
    }
    assert(assoc_get(m0, sname) == m0[si].1);
    let ents0 = m0[si].1.entities;
    assert(m0[si].1.wf());
    assert(assoc_has(ents0, ename));
    let k = assoc_at(ents0, ename);
    assert(0 <= k < ents0.len() && ents0[k].0 == ename);
    if k != ei {
        assert(false);
    }
    let ents1 = ents0.update(ei, (ename, e));
    assert(forall|i: int| 0 <= i < ents1.len() && i != ei ==> ents1[i] == ents0[i]);
    assert(SchemaV { entities: ents1 }.wf());
    assert(forall|i: int| 0 <= i < m1.len() && i != si ==> m1[i] == m0[i]);
    assert(MetaInfoV { schemas: m1 }.wf());
}

/// A bad entity kind in a prefix of the rows decides the whole pass.
proof fn lemma_load_entities_err_propagates(rows: Seq<OraTable>, k: int)
    requires
        0 <= k <= rows.len(),
        spec_load_entities(rows.subrange(0, k)) is Err,
    ensures
        spec_load_entities(rows) == spec_load_entities(rows.subrange(0, k)),
    decreases rows.len() - k,
{
    if k < rows.len() {
        assert(rows.subrange(0, k + 1).drop_last() =~= rows.subrange(0, k));
        lemma_load_entities_err_propagates(rows, k + 1);
    } else {
        assert(rows.subrange(0, k) =~= rows);
    }
}

/// The entities pass: enumerate tables and views, tag temporary tables
/// distinctly, normalize names, and register every entity with empty
/// columns, key and indexes, exactly as [`spec_load_entities`] prescribes.
/// An unmapped entity kind aborts the load.
pub fn load_entities(rows: &Vec<OraTable>) -> (r: Result<MetaInfo, CatalogLoadError>)
    ensures
        match r {
            Ok(m) => spec_load_entities(rows@) == Ok::<Seq<(Seq<char>, SchemaV)>, Seq<char>>(
                m@.schemas,
            ) && m@.wf(),
            Err(e) => spec_load_entities(rows@) == Err::<Seq<(Seq<char>, SchemaV)>, Seq<char>>(
                e.kind@,
            ),
        },
{
    let mut mi = MetaInfo { schemas: Vec::new() };
    proof {
        assert(rows@.subrange(0, 0) =~= Seq::<OraTable>::empty());
        assert(mi@.schemas =~= Seq::<(Seq<char>, SchemaV)>::empty());
    }
    let n = rows.len();
    let mut i: usize = 0;
    while i < n
        invariant
            n == rows.len(),
            0 <= i <= n,
            mi@.wf(),
            spec_load_entities(rows@.subrange(0, i as int)) == Ok::<
                Seq<(Seq<char>, SchemaV)>,
                Seq<char>,
            >(mi@.schemas),
        decreases n - i,
    {
        let ghost prev = rows@.subrange(0, i as int);
        let ghost cur = rows@.subrange(0, i + 1);
        proof {
            assert(cur.drop_last() =~= prev);
            assert(cur.last() == rows@[i as int]);
        }
        let t = &rows[i];
        let kind = match entity_kind(&t.table_type, &t.temporary) {
            None => {
                let err = CatalogLoadError { kind: t.table_type.clone() };
                proof {
                    lemma_load_entities_err_propagates(rows@, i + 1);
                }
                return Err(err);
            },
            Some(k) => k,
        };
        let sname = to_lowercase(t.owner.as_str());
        let ename = to_lowercase(t.table_name.as_str());
        let ent = Entity {
            entity_type: kind,
            num_rows: t.num_rows,
            columns: Vec::new(),
            primary_key: None,
            indexes: Vec::new(),
        };
        proof {
            assert(ent@ == EntityV {
                entity_type: spec_entity_kind(t.table_type@, t.temporary@)->Some_0,
                num_rows: t.num_rows,
                columns: Seq::empty(),
                primary_key: None,
                indexes: Seq::empty(),
            }) by {
                assert(cols_v(Seq::<Column>::empty()) =~= Seq::<ColumnV>::empty());
                assert(crate::catalog::indexes_v(Seq::<crate::catalog::TableIndex>::empty())
                    =~= Seq::<crate::catalog::TableIndexV>::empty());
            }
        }
        let ghost m0 = mi@.schemas;
        let ghost v0 = mi.schemas@;
        let ghost entv = ent@;
        match find_pair_idx(&mi.schemas, &sname) {
            None => {
                proof {
                    assert(!assoc_has(m0, sname@)) by {
                        if assoc_has(m0, sname@) {
                            let j = assoc_at(m0, sname@);
                            assert(m0[j] == (v0[j].0@, v0[j].1@));
                            assert(false);
                        }
                    }
                }
                let mut entities: Vec<(String, Entity)> = Vec::new();
                entities.push((ename, ent));
                let sch = Schema { entities };
                proof {
                    assert(sch@.entities =~= Seq::<(Seq<char>, EntityV)>::empty().push(
                        (lower_of(t.table_name@), entv),
                    ));
                }
                mi.schemas.push((sname, sch));
                proof {
                    assert(mi@.schemas =~= m0.push(
                        (
                            lower_of(t.owner@),
                            SchemaV {
                                entities: Seq::<(Seq<char>, EntityV)>::empty().push(
                                    (lower_of(t.table_name@), entv),
                                ),
                            },
                        ),
                    ));
                    lemma_schema_insert(
                        m0,
                        mi@.schemas,
                        lower_of(t.owner@),
                        lower_of(t.table_name@),
                        entv,
                    );
                }
            },
            Some(si) => {
                proof {
                    assert(m0[si as int] == (v0[si as int].0@, v0[si as int].1@));
                }
                let sp = &mut mi.schemas[si];
                let ghost ents0 = sp.1.entities@;
                match find_pair_idx(&sp.1.entities, &ename) {
                    None => {
                        proof {
                            assert(!assoc_has(m0[si as int].1.entities, lower_of(t.table_name@)))
                                by {
                                if assoc_has(m0[si as int].1.entities, lower_of(t.table_name@)) {
                                    let j = assoc_at(
                                        m0[si as int].1.entities,
                                        lower_of(t.table_name@),
                                    );
                                    assert(m0[si as int].1.entities[j] == (
                                        ents0[j].0@,
                                        ents0[j].1@,
                                    ));
                                    assert(false);
                                }
                            }
                        }
                        sp.1.entities.push((ename, ent));
                        proof {
                            assert(sp.1@.entities =~= m0[si as int].1.entities.push(
                                (lower_of(t.table_name@), entv),
                            ));
                        }
                    },
                    Some(ei) => {
                        proof {
                            assert(m0[si as int].1.entities[ei as int] == (
                                ents0[ei as int].0@,
                                ents0[ei as int].1@,
                            ));
                        }
                        let ep = &mut sp.1.entities[ei];
                        ep.1 = ent;
                        proof {
                            assert(sp.1@.entities =~= m0[si as int].1.entities.update(
                                ei as int,
                                (lower_of(t.table_name@), entv),
                            ));
                        }
                    },
                }
                proof {
                    assert(mi@.schemas =~= m0.update(si as int, (v0[si as int].0@, sp.1@)));
                    if assoc_has(m0[si as int].1.entities, lower_of(t.table_name@)) {
                        lemma_entity_update(
                            m0,
                            mi@.schemas,
                            si as int,
                            assoc_at(m0[si as int].1.entities, lower_of(t.table_name@)),
                            lower_of(t.owner@),
                            lower_of(t.table_name@),
                            entv,
                        );
                    } else {
                        lemma_entity_insert(
                            m0,
                            mi@.schemas,
                            si as int,
                            lower_of(t.owner@),
                            lower_of(t.table_name@),
                            entv,
                        );
                    }
                }
            },
        }
        proof {
            assert(spec_load_entities(cur) == Ok::<Seq<(Seq<char>, SchemaV)>, Seq<char>>(
                mi@.schemas,
            ));
        }
        i = i + 1;
    }
    proof {
        assert(rows@.subrange(0, n as int) =~= rows@);
    }
    Ok(mi)
}


/// The catalog after the columns pass has absorbed one row: the column is
/// appended, in arrival order, to the entity the row names; a row naming an
/// unknown schema or entity is dropped.
pub open spec fn spec_apply_column(m: Seq<(Seq<char>, SchemaV)>, c: OraColumn) -> Seq<
    (Seq<char>, SchemaV),
> {
    let sname = lower_of(c.owner@);
    let ename = lower_of(c.table_name@);
    if !assoc_has(m, sname) {
        m
    } else {
        let sch = assoc_get(m, sname);
        if !assoc_has(sch.entities, ename) {
            m
        } else {
            let e = assoc_get(sch.entities, ename);
            let e2 = EntityV {
                entity_type: e.entity_type,
                num_rows: e.num_rows,
                columns: e.columns.push(spec_column_of(c)),
                primary_key: e.primary_key,
                indexes: e.indexes,
            };
            assoc_put(m, sname, SchemaV { entities: assoc_put(sch.entities, ename, e2) })
        }
    }
}

/// The catalog after the columns pass has absorbed all its rows, in order.
pub open spec fn spec_load_columns(m: Seq<(Seq<char>, SchemaV)>, rows: Seq<OraColumn>) -> Seq<
    (Seq<char>, SchemaV),
>
    decreases rows.len(),
{
    if rows.len() == 0 {
        m
    } else {
        spec_apply_column(spec_load_columns(m, rows.drop_last()), rows.last())
    }
}

/// The columns pass: append each row's column to its entity in ascending
/// physical order, with semantic type, width and backend tag inferred from
/// the native descriptor, exactly as [`spec_load_columns`] prescribes.
pub fn load_columns(rows: &Vec<OraColumn>, mi: &mut MetaInfo)
    requires
        old(mi)@.wf(),
    ensures
        final (mi)@.schemas == spec_load_columns(old(mi)@.schemas, rows@),
        final (mi)@.wf(),
{
    let ghost base = old(mi)@.schemas;
    proof {
        assert(rows@.subrange(0, 0) =~= Seq::<OraColumn>::empty());
    }
    let n = rows.len();
    let mut i: usize = 0;
    while i < n
        invariant
            n == rows.len(),
            0 <= i <= n,
            mi@.wf(),
            mi@.schemas == spec_load_columns(base, rows@.subrange(0, i as int)),
        decreases n - i,
    {
        let ghost prev = rows@.subrange(0, i as int);
        let ghost cur = rows@.subrange(0, i + 1);
        proof {
            assert(cur.drop_last() =~= prev);
            assert(cur.last() == rows@[i as int]);
        }
        let c = &rows[i];
        let sname = to_lowercase(c.owner.as_str());
        let ghost m0 = mi@.schemas;
        let ghost v0 = mi.schemas@;
        match find_pair_idx(&mi.schemas, &sname) {
            None => {
                proof {
                    assert(!assoc_has(m0, lower_of(c.owner@))) by {
                        if assoc_has(m0, lower_of(c.owner@)) {
                            let j = assoc_at(m0, lower_of(c.owner@));
                            assert(m0[j] == (v0[j].0@, v0[j].1@));
                            assert(false);
                        }
                    }
                }
            },
            Some(si) => {
                proof {
                    assert(m0[si as int] == (v0[si as int].0@, v0[si as int].1@));
                }
                let ename = to_lowercase(c.table_name.as_str());
                let sp = &mut mi.schemas[si];
                let ghost ents0 = sp.1.entities@;
                match find_pair_idx(&sp.1.entities, &ename) {
                    None => {
                        proof {
                            assert(!assoc_has(m0[si as int].1.entities, lower_of(c.table_name@)))
                                by {
                                if assoc_has(m0[si as int].1.entities, lower_of(c.table_name@)) {
                                    let j = assoc_at(
                                        m0[si as int].1.entities,
                                        lower_of(c.table_name@),
                                    );
                                    assert(m0[si as int].1.entities[j] == (
                                        ents0[j].0@,
                                        ents0[j].1@,
                                    ));
                                    assert(false);
                                }
                            }
                            assert(mi@.schemas =~= m0);
                        }
                    },
                    Some(ei) => {
                        proof {
                            assert(m0[si as int].1.entities[ei as int] == (
                                ents0[ei as int].0@,
                                ents0[ei as int].1@,
                            ));
                        }
                        let col = make_column(c);
                        let ghost colv = col@;
                        let ghost e0 = m0[si as int].1.entities[ei as int].1;
                        let ep = &mut sp.1.entities[ei];
                        ep.1.columns.push(col);
                        proof {
                            let e2 = EntityV {
                                entity_type: e0.entity_type,
                                num_rows: e0.num_rows,
                                columns: e0.columns.push(colv),
                                primary_key: e0.primary_key,
                                indexes: e0.indexes,
                            };
                            assert(ep.1@.columns =~= e0.columns.push(colv)) by {
                                assert(cols_v(ep.1.columns@) =~= e0.columns.push(colv));
                            }
                            assert(ep.1@ == e2);
                            assert(e2.wf()) by {
                                assert(e0.wf());
                            }
                            assert(sp.1@.entities =~= m0[si as int].1.entities.update(
                                ei as int,
                                (lower_of(c.table_name@), e2),
                            ));
                        }
                    },
                }
                proof {
                    if assoc_has(m0[si as int].1.entities, lower_of(c.table_name@)) {
                        let e0 = m0[si as int].1.entities[assoc_at(
                            m0[si as int].1.entities,
                            lower_of(c.table_name@),
                        )].1;
                        assert(mi@.schemas =~= m0.update(si as int, (v0[si as int].0@, sp.1@)));
                        lemma_entity_update(
                            m0,
                            mi@.schemas,
                            si as int,
                            assoc_at(m0[si as int].1.entities, lower_of(c.table_name@)),
                            lower_of(c.owner@),
                            lower_of(c.table_name@),
                            EntityV {
                                entity_type: e0.entity_type,
                                num_rows: e0.num_rows,
                                columns: e0.columns.push(spec_column_of(rows@[i as int])),
                                primary_key: e0.primary_key,
                                indexes: e0.indexes,
                            },
                        );
                    } else {
                        assert(mi@.schemas =~= m0);
                    }
                }
            },
        }
        proof {
            assert(spec_load_columns(base, cur) == mi@.schemas);
        }
        i = i + 1;
    }
    proof {
        assert(rows@.subrange(0, n as int) =~= rows@);
    }
}


/// One primary-key constraint, assembled from its consecutive rows: the
/// owner and table it belongs to and its column names in constraint
/// position order.
pub struct KeyGroup {
    pub owner: String,
    pub table_name: String,
    pub constraint_name: String,
    pub columns: Vec<String>,
}

/// Mathematical value of a [`KeyGroup`].
pub struct KeyGroupV {
    pub owner: Seq<char>,
    pub table_name: Seq<char>,
    pub constraint_name: Seq<char>,
    pub columns: Seq<Seq<char>>,
}

impl View for KeyGroup {
    type V = KeyGroupV;

    open spec fn view(&self) -> KeyGroupV {
        KeyGroupV {
            owner: self.owner@,
            table_name: self.table_name@,
            constraint_name: self.constraint_name@,
            columns: self.columns@.map_values(|s: String| s@),
        }
    }
}

/// Values of a sequence of key groups.
pub open spec fn key_groups_v(s: Seq<KeyGroup>) -> Seq<KeyGroupV> {
    s.map_values(|g: KeyGroup| g@)
}

/// One more key row either extends the last group (same owner, table and
/// constraint) or starts a new one.
pub open spec fn spec_key_group_step(gs: Seq<KeyGroupV>, r: OraPrimaryKey) -> Seq<KeyGroupV> {
    if gs.len() > 0 && gs.last().owner == r.owner@ && gs.last().table_name == r.table_name@
        && gs.last().constraint_name == r.constraint_name@ {
        gs.update(
            gs.len() - 1,
            KeyGroupV {
                owner: gs.last().owner,
                table_name: gs.last().table_name,
                constraint_name: gs.last().constraint_name,
                columns: gs.last().columns.push(r.column_name@),
            },
        )
    } else {
        gs.push(
            KeyGroupV {
                owner: r.owner@,
                table_name: r.table_name@,
                constraint_name: r.constraint_name@,
                columns: seq![r.column_name@],
            },
        )
    }
}

/// The key constraints, grouped from consecutive rows, in arrival order.
pub open spec fn spec_key_groups(rows: Seq<OraPrimaryKey>) -> Seq<KeyGroupV>
    decreases rows.len(),
{
    if rows.len() == 0 {
        Seq::empty()
    } else {
        spec_key_group_step(spec_key_groups(rows.drop_last()), rows.last())
    }
}

/// Group consecutive key rows of one constraint together, exactly as
/// [`spec_key_groups`] prescribes.
fn group_key_rows(rows: &Vec<OraPrimaryKey>) -> (r: Vec<KeyGroup>)
    ensures
        key_groups_v(r@) == spec_key_groups(rows@),
{
    let mut groups: Vec<KeyGroup> = Vec::new();
    proof {
        assert(rows@.subrange(0, 0) =~= Seq::<OraPrimaryKey>::empty());
        assert(key_groups_v(groups@) =~= Seq::<KeyGroupV>::empty());
    }
    let n = rows.len();
    let mut i: usize = 0;
    while i < n
        invariant
            n == rows.len(),
            0 <= i <= n,
            key_groups_v(groups@) == spec_key_groups(rows@.subrange(0, i as int)),
        decreases n - i,
    {
        let ghost prev = rows@.subrange(0, i as int);
        let ghost cur = rows@.subrange(0, i + 1);
        proof {
            assert(cur.drop_last() =~= prev);
            assert(cur.last() == rows@[i as int]);
        }
        let row = &rows[i];
        let ghost gs0 = key_groups_v(groups@);
        let mut extend = false;
        if groups.len() > 0 {
            let last = &groups[groups.len() - 1];
            proof {
                assert(gs0.last() == groups@[groups@.len() - 1]@);
            }
            if last.owner == row.owner && last.table_name == row.table_name
                && last.constraint_name == row.constraint_name {
                extend = true;
            }
        }
        if extend {
            let li = groups.len() - 1;
            let gp = &mut groups[li];
            gp.columns.push(row.column_name.clone());
            proof {
                assert(gp@.columns =~= gs0.last().columns.push(rows@[i as int].column_name@));
                assert(gp@ == spec_key_group_step(gs0, rows@[i as int]).last());
                assert(key_groups_v(groups@) =~= spec_key_group_step(gs0, rows@[i as int]));
            }
        } else {
            let mut cols: Vec<String> = Vec::new();
            cols.push(row.column_name.clone());
            let g = KeyGroup {
                owner: row.owner.clone(),
                table_name: row.table_name.clone(),
                constraint_name: row.constraint_name.clone(),
                columns: cols,
            };
            proof {
                assert(g@.columns =~= seq![rows@[i as int].column_name@]);
            }
            groups.push(g);
            proof {
                assert(key_groups_v(groups@) =~= spec_key_group_step(gs0, rows@[i as int]));
            }
        }
        i = i + 1;
    }
    proof {
        assert(rows@.subrange(0, n as int) =~= rows@);
    }
    groups
}

/// The positions the named key columns resolve to in a column list: each
/// name is normalized and looked up; a name that resolves to no column is
/// dropped silently.
pub open spec fn spec_resolve_positions(cols: Seq<ColumnV>, names: Seq<Seq<char>>) -> Seq<usize>
    decreases names.len(),
{
    if names.len() == 0 {
        Seq::empty()
    } else {
        let prev = spec_resolve_positions(cols, names.drop_last());
        let ci = col_idx(cols, lower_of(names.last()));
        if ci == -1 {
            prev
        } else {
            prev.push(ci as usize)
        }
    }
}

/// Every resolved position is a valid index into the column list.
pub proof fn lemma_resolve_positions_bounds(cols: Seq<ColumnV>, names: Seq<Seq<char>>)
    ensures
        forall|i: int|
            0 <= i < spec_resolve_positions(cols, names).len() ==> (
            #[trigger] spec_resolve_positions(cols, names)[i] as int) < cols.len(),
    decreases names.len(),
{
    if names.len() > 0 {
        lemma_resolve_positions_bounds(cols, names.drop_last());
        let prev = spec_resolve_positions(cols, names.drop_last());
        let full = spec_resolve_positions(cols, names);
        let ci = col_idx(cols, lower_of(names.last()));
        lemma_col_idx_from(cols, lower_of(names.last()), 0);
        if ci == -1 {
            assert(full == prev);
        } else {
            assert(ci < cols.len());
            assert(full == prev.push(ci as usize));
            assert forall|i: int| 0 <= i < full.len() implies (full[i] as int) < cols.len() by {
                if i < prev.len() {
                    assert(full[i] == prev[i]);
                } else {
                    assert(full[i] == ci as usize);
                }
            }
        }
    }
}

/// Resolve the named key columns against a column list, exactly as
/// [`spec_resolve_positions`] prescribes.
fn resolve_positions(cols: &Vec<Column>, names: &Vec<String>) -> (r: Vec<usize>)
    ensures
        r@ == spec_resolve_positions(cols_v(cols@), str_views(names@)),
{
    let ghost colsv = cols_v(cols@);
    let ghost namesv = str_views(names@);
    proof {
        assert(namesv.subrange(0, 0) =~= Seq::<Seq<char>>::empty());
    }
    let n = names.len();
    let mut out: Vec<usize> = Vec::new();
    proof {
        assert(out@ =~= Seq::<usize>::empty());
    }
    let mut i: usize = 0;
    while i < n
        invariant
            n == names.len(),
            colsv == cols_v(cols@),
            namesv == str_views(names@),
            0 <= i <= n,
            out@ == spec_resolve_positions(colsv, namesv.subrange(0, i as int)),
        decreases n - i,
    {
        let ghost prev = namesv.subrange(0, i as int);
        let ghost cur = namesv.subrange(0, i + 1);
        proof {
            assert(cur.drop_last() =~= prev);
            assert(cur.last() == namesv[i as int]);
            assert(namesv[i as int] == names@[i as int]@);
        }
        let lname = to_lowercase(names[i].as_str());
        match crate::query::find_col_idx(cols, &lname) {
            Some(ci) => {
                out.push(ci);
            },
            None => {},
        }
        i = i + 1;
    }
    proof {
        assert(namesv.subrange(0, n as int) =~= namesv);
    }
    out
}


/// The catalog after the primary-keys pass has absorbed one constraint: its
/// column names are resolved against the entity's already-loaded columns
/// (unresolved names dropped) and the ordered position list is stored as the
/// entity's primary key; a constraint naming an unknown schema or entity is
/// dropped.
pub open spec fn spec_apply_key_group(m: Seq<(Seq<char>, SchemaV)>, g: KeyGroupV) -> Seq<
    (Seq<char>, SchemaV),
> {
    let sname = lower_of(g.owner);
    let ename = lower_of(g.table_name);
    if !assoc_has(m, sname) {
        m
    } else {
        let sch = assoc_get(m, sname);
        if !assoc_has(sch.entities, ename) {
            m
        } else {
            let e = assoc_get(sch.entities, ename);
            let e2 = EntityV {
                entity_type: e.entity_type,
                num_rows: e.num_rows,
                columns: e.columns,
                primary_key: Some(spec_resolve_positions(e.columns, g.columns)),
                indexes: e.indexes,
            };
            assoc_put(m, sname, SchemaV { entities: assoc_put(sch.entities, ename, e2) })
        }
    }
}

/// The catalog after the primary-keys pass has absorbed all its
/// constraints, in order.
pub open spec fn spec_load_keys(m: Seq<(Seq<char>, SchemaV)>, groups: Seq<KeyGroupV>) -> Seq<
    (Seq<char>, SchemaV),
>
    decreases groups.len(),
{
    if groups.len() == 0 {
        m
    } else {
        spec_apply_key_group(spec_load_keys(m, groups.drop_last()), groups.last())
    }
}

/// The primary-keys pass: group the constraint rows, resolve each
/// constraint's column names to positions in the already-loaded column list,
/// and store the ordered position list on the entity, exactly as
/// [`spec_load_keys`] over [`spec_key_groups`] prescribes.
pub fn load_primary_keys(rows: &Vec<OraPrimaryKey>, mi: &mut MetaInfo)
    requires
        old(mi)@.wf(),
    ensures
        final (mi)@.schemas == spec_load_keys(old(mi)@.schemas, spec_key_groups(rows@)),
        final (mi)@.wf(),
{
    let ghost base = old(mi)@.schemas;
    let groups = group_key_rows(rows);
    let ghost groupsv = spec_key_groups(rows@);
    proof {
        assert(groupsv.subrange(0, 0) =~= Seq::<KeyGroupV>::empty());
    }
    let n = groups.len();
    proof {
        assert(key_groups_v(groups@).len() == groupsv.len());
    }
    let mut i: usize = 0;
    while i < n
        invariant
            n == groups.len(),
            key_groups_v(groups@) == groupsv,
            0 <= i <= n,
            mi@.wf(),
            mi@.schemas == spec_load_keys(base, groupsv.subrange(0, i as int)),
        decreases n - i,
    {
        let ghost prev = groupsv.subrange(0, i as int);
        let ghost cur = groupsv.subrange(0, i + 1);
        proof {
            assert(cur.drop_last() =~= prev);
            assert(cur.last() == groupsv[i as int]);
            assert(groupsv[i as int] == groups@[i as int]@);
        }
        let g = &groups[i];
        let sname = to_lowercase(g.owner.as_str());
        let ghost m0 = mi@.schemas;
        let ghost v0 = mi.schemas@;
        match find_pair_idx(&mi.schemas, &sname) {
            None => {
                proof {
                    assert(!assoc_has(m0, lower_of(g@.owner))) by {
                        if assoc_has(m0, lower_of(g@.owner)) {
                            let j = assoc_at(m0, lower_of(g@.owner));
                            assert(m0[j] == (v0[j].0@, v0[j].1@));
                            assert(false);
                        }
                    }
                }
            },
            Some(si) => {
                proof {
                    assert(m0[si as int] == (v0[si as int].0@, v0[si as int].1@));
                }
                let ename = to_lowercase(g.table_name.as_str());
                let ei_opt = find_pair_idx(&mi.schemas[si].1.entities, &ename);
                let ghost ents0 = mi.schemas@[si as int].1.entities@;
                match ei_opt {
                    None => {
                        proof {
                            assert(!assoc_has(m0[si as int].1.entities, lower_of(g@.table_name)))
                                by {
                                if assoc_has(m0[si as int].1.entities, lower_of(g@.table_name)) {
                                    let j = assoc_at(
                                        m0[si as int].1.entities,
                                        lower_of(g@.table_name),
                                    );
                                    assert(m0[si as int].1.entities[j] == (
                                        ents0[j].0@,
                                        ents0[j].1@,
                                    ));
                                    assert(false);
                                }
                            }
                            assert(mi@.schemas =~= m0);
                        }
                    },
                    Some(ei) => {
                        proof {
                            assert(m0[si as int].1.entities[ei as int] == (
                                ents0[ei as int].0@,
                                ents0[ei as int].1@,
                            ));
                        }
                        let positions = resolve_positions(
                            &mi.schemas[si].1.entities[ei].1.columns,
                            &g.columns,
                        );
                        let ghost e0 = m0[si as int].1.entities[ei as int].1;
                        let sp = &mut mi.schemas[si];
                        let ep = &mut sp.1.entities[ei];
                        ep.1.primary_key = Some(positions);
                        proof {
                            let e2 = EntityV {
                                entity_type: e0.entity_type,
                                num_rows: e0.num_rows,
                                columns: e0.columns,
                                primary_key: Some(spec_resolve_positions(e0.columns, g@.columns)),
                                indexes: e0.indexes,
                            };
                            assert(ep.1@ == e2);
                            assert(e2.wf()) by {
                                assert(e0.wf());
                                lemma_resolve_positions_bounds(e0.columns, g@.columns);
                            }
                            assert(sp.1@.entities =~= m0[si as int].1.entities.update(
                                ei as int,
                                (lower_of(g@.table_name), e2),
                            ));
                        }
                        proof {
                            assert(mi@.schemas =~= m0.update(si as int, (v0[si as int].0@, sp.1@)));
                            lemma_entity_update(
                                m0,
                                mi@.schemas,
                                si as int,
                                assoc_at(m0[si as int].1.entities, lower_of(g@.table_name)),
                                lower_of(g@.owner),
                                lower_of(g@.table_name),
                                EntityV {
                                    entity_type: e0.entity_type,
                                    num_rows: e0.num_rows,
                                    columns: e0.columns,
                                    primary_key: Some(
                                        spec_resolve_positions(e0.columns, g@.columns),
                                    ),
                                    indexes: e0.indexes,
                                },
                            );
                        }
                    },
                }
            },
        }
        proof {
            assert(spec_load_keys(base, cur) == mi@.schemas);
        }
        i = i + 1;
    }
    proof {
        assert(groupsv.subrange(0, n as int) =~= groupsv);
    }
}


/// One index, assembled from its consecutive rows: the owner and table it
/// belongs to, its uniqueness flag, and its `(column name, direction)`
/// pairs in index position order.
pub struct IndexGroup {
    pub owner: String,
    pub table_name: String,
    pub index_name: String,
    pub uniqueness: String,
    pub columns: Vec<(String, String)>,
}

/// Mathematical value of an [`IndexGroup`].
pub struct IndexGroupV {
    pub owner: Seq<char>,
    pub table_name: Seq<char>,
    pub index_name: Seq<char>,
    pub uniqueness: Seq<char>,
    pub columns: Seq<(Seq<char>, Seq<char>)>,
}

impl View for IndexGroup {
    type V = IndexGroupV;

    open spec fn view(&self) -> IndexGroupV {
        IndexGroupV {
            owner: self.owner@,
            table_name: self.table_name@,
            index_name: self.index_name@,
            uniqueness: self.uniqueness@,
            columns: self.columns@.map_values(|p: (String, String)| (p.0@, p.1@)),
        }
    }
}

/// Values of a sequence of index groups.
pub open spec fn index_groups_v(s: Seq<IndexGroup>) -> Seq<IndexGroupV> {
    s.map_values(|g: IndexGroup| g@)
}

/// One more index row either extends the last group (same owner, table,
/// index and uniqueness) or starts a new one.
pub open spec fn spec_index_group_step(gs: Seq<IndexGroupV>, r: OraIndex) -> Seq<IndexGroupV> {
    if gs.len() > 0 && gs.last().owner == r.owner@ && gs.last().table_name == r.table_name@
        && gs.last().index_name == r.index_name@ && gs.last().uniqueness == r.uniqueness@ {
        gs.update(
            gs.len() - 1,
            IndexGroupV {
                owner: gs.last().owner,
                table_name: gs.last().table_name,
                index_name: gs.last().index_name,
                uniqueness: gs.last().uniqueness,
                columns: gs.last().columns.push((r.column_name@, r.descend@)),
            },
        )
    } else {
        gs.push(
            IndexGroupV {
                owner: r.owner@,
                table_name: r.table_name@,
                index_name: r.index_name@,
                uniqueness: r.uniqueness@,
                columns: seq![(r.column_name@, r.descend@)],
            },
        )
    }
}

/// The indexes, grouped from consecutive rows, in arrival order.
pub open spec fn spec_index_groups(rows: Seq<OraIndex>) -> Seq<IndexGroupV>
    decreases rows.len(),
{
    if rows.len() == 0 {
        Seq::empty()
    } else {
        spec_index_group_step(spec_index_groups(rows.drop_last()), rows.last())
    }
}

/// Group consecutive index rows of one index together, exactly as
/// [`spec_index_groups`] prescribes.
fn group_index_rows(rows: &Vec<OraIndex>) -> (r: Vec<IndexGroup>)
    ensures
        index_groups_v(r@) == spec_index_groups(rows@),
{
    let mut groups: Vec<IndexGroup> = Vec::new();
    proof {
        assert(rows@.subrange(0, 0) =~= Seq::<OraIndex>::empty());
        assert(index_groups_v(groups@) =~= Seq::<IndexGroupV>::empty());
    }
    let n = rows.len();
    let mut i: usize = 0;
    while i < n
        invariant
            n == rows.len(),
            0 <= i <= n,
            index_groups_v(groups@) == spec_index_groups(rows@.subrange(0, i as int)),
        decreases n - i,
    {
        let ghost prev = rows@.subrange(0, i as int);
        let ghost cur = rows@.subrange(0, i + 1);
        proof {
            assert(cur.drop_last() =~= prev);
            assert(cur.last() == rows@[i as int]);
        }
        let row = &rows[i];
        let ghost gs0 = index_groups_v(groups@);
        let mut extend = false;
        if groups.len() > 0 {
            let last = &groups[groups.len() - 1];
            proof {
                assert(gs0.last() == groups@[groups@.len() - 1]@);
            }
            if last.owner == row.owner && last.table_name == row.table_name
                && last.index_name == row.index_name && last.uniqueness == row.uniqueness {
                extend = true;
            }
        }
        if extend {
            let li = groups.len() - 1;
            let gp = &mut groups[li];
            gp.columns.push((row.column_name.clone(), row.descend.clone()));
            proof {
                assert(gp@.columns =~= gs0.last().columns.push(
                    (rows@[i as int].column_name@, rows@[i as int].descend@),
                ));
                assert(gp@ == spec_index_group_step(gs0, rows@[i as int]).last());
                assert(index_groups_v(groups@) =~= spec_index_group_step(gs0, rows@[i as int]));
            }
        } else {
            let mut cols: Vec<(String, String)> = Vec::new();
            cols.push((row.column_name.clone(), row.descend.clone()));
            let g = IndexGroup {
                owner: row.owner.clone(),
                table_name: row.table_name.clone(),
                index_name: row.index_name.clone(),
                uniqueness: row.uniqueness.clone(),
                columns: cols,
            };
            proof {
                assert(g@.columns =~= seq![
                    (rows@[i as int].column_name@, rows@[i as int].descend@),
                ]);
            }
            groups.push(g);
            proof {
                assert(index_groups_v(groups@) =~= spec_index_group_step(gs0, rows@[i as int]));
            }
        }
        i = i + 1;
    }
    proof {
        assert(rows@.subrange(0, n as int) =~= rows@);
    }
    groups
}

/// The index columns the named columns resolve to: each name is normalized
/// and looked up, keeping the per-column sort direction; a name that
/// resolves to no column is dropped.
pub open spec fn spec_resolve_index_columns(
    cols: Seq<ColumnV>,
    pairs: Seq<(Seq<char>, Seq<char>)>,
) -> Seq<crate::catalog::IndexColumn>
    decreases pairs.len(),
{
    if pairs.len() == 0 {
        Seq::empty()
    } else {
        let prev = spec_resolve_index_columns(cols, pairs.drop_last());
        let ci = col_idx(cols, lower_of(pairs.last().0));
        if ci == -1 {
            prev
        } else {
            prev.push(
                crate::catalog::IndexColumn {
                    column_index: ci as usize,
                    desc: pairs.last().1 != "ASC"@,
                },
            )
        }
    }
}

/// Every resolved index column's position is a valid index into the column
/// list.
pub proof fn lemma_resolve_index_columns_bounds(
    cols: Seq<ColumnV>,
    pairs: Seq<(Seq<char>, Seq<char>)>,
)
    ensures
        forall|i: int|
            0 <= i < spec_resolve_index_columns(cols, pairs).len() ==> (
            #[trigger] spec_resolve_index_columns(cols, pairs)[i].column_index as int)
                < cols.len(),
    decreases pairs.len(),
{
    if pairs.len() > 0 {
        lemma_resolve_index_columns_bounds(cols, pairs.drop_last());
        let prev = spec_resolve_index_columns(cols, pairs.drop_last());
        let full = spec_resolve_index_columns(cols, pairs);
        let ci = col_idx(cols, lower_of(pairs.last().0));
        lemma_col_idx_from(cols, lower_of(pairs.last().0), 0);
        if ci == -1 {
            assert(full == prev);
        } else {
            assert forall|i: int|
                0 <= i < full.len() implies (full[i].column_index as int) < cols.len() by {
                if i < prev.len() {
                    assert(full[i] == prev[i]);
                } else {
                    assert(full[i].column_index == ci as usize);
                }
            }
        }
    }
}

/// Resolve an index's named columns against a column list, exactly as
/// [`spec_resolve_index_columns`] prescribes.
fn resolve_index_columns(cols: &Vec<Column>, pairs: &Vec<(String, String)>) -> (r: Vec<
    crate::catalog::IndexColumn,
>)
    ensures
        r@ == spec_resolve_index_columns(
            cols_v(cols@),
            pairs@.map_values(|p: (String, String)| (p.0@, p.1@)),
        ),
{
    let ghost colsv = cols_v(cols@);
    let ghost pairsv = pairs@.map_values(|p: (String, String)| (p.0@, p.1@));
    proof {
        assert(pairsv.subrange(0, 0) =~= Seq::<(Seq<char>, Seq<char>)>::empty());
    }
    let n = pairs.len();
    let mut out: Vec<crate::catalog::IndexColumn> = Vec::new();
    proof {
        assert(out@ =~= Seq::<crate::catalog::IndexColumn>::empty());
    }
    let mut i: usize = 0;
    while i < n
        invariant
            n == pairs.len(),
            colsv == cols_v(cols@),
            pairsv == pairs@.map_values(|p: (String, String)| (p.0@, p.1@)),
            0 <= i <= n,
            out@ == spec_resolve_index_columns(colsv, pairsv.subrange(0, i as int)),
        decreases n - i,
    {
        let ghost prev = pairsv.subrange(0, i as int);
        let ghost cur = pairsv.subrange(0, i + 1);
        proof {
            assert(cur.drop_last() =~= prev);
            assert(cur.last() == pairsv[i as int]);
            assert(pairsv[i as int] == (pairs@[i as int].0@, pairs@[i as int].1@));
        }
        let p = &pairs[i];
        let lname = to_lowercase(p.0.as_str());
        match crate::query::find_col_idx(cols, &lname) {
            Some(ci) => {
                let desc = !str_eq_lit(&p.1, "ASC");
                out.push(crate::catalog::IndexColumn { column_index: ci, desc });
            },
            None => {},
        }
        i = i + 1;
    }
    proof {
        assert(pairsv.subrange(0, n as int) =~= pairsv);
    }
    out
}

/// The catalog after the indexes pass has absorbed one index: its column
/// names are resolved against the entity's columns (unresolved names
/// dropped) and, unless no column resolved, the index is appended to the
/// entity; an index naming an unknown schema or entity is dropped.
pub open spec fn spec_apply_index_group(m: Seq<(Seq<char>, SchemaV)>, g: IndexGroupV) -> Seq<
    (Seq<char>, SchemaV),
> {
    let sname = lower_of(g.owner);
    let ename = lower_of(g.table_name);
    if !assoc_has(m, sname) {
        m
    } else {
        let sch = assoc_get(m, sname);
        if !assoc_has(sch.entities, ename) {
            m
        } else {
            let e = assoc_get(sch.entities, ename);
            let ics = spec_resolve_index_columns(e.columns, g.columns);
            if ics.len() == 0 {
                m
            } else {
                let e2 = EntityV {
                    entity_type: e.entity_type,
                    num_rows: e.num_rows,
                    columns: e.columns,
                    primary_key: e.primary_key,
                    indexes: e.indexes.push(
                        TableIndexV { unique: g.uniqueness == "UNIQUE"@, columns: ics },
                    ),
                };
                assoc_put(m, sname, SchemaV { entities: assoc_put(sch.entities, ename, e2) })
            }
        }
    }
}

/// The catalog after the indexes pass has absorbed all its indexes, in
/// order.
pub open spec fn spec_load_indexes(m: Seq<(Seq<char>, SchemaV)>, groups: Seq<IndexGroupV>) -> Seq<
    (Seq<char>, SchemaV),
>
    decreases groups.len(),
{
    if groups.len() == 0 {
        m
    } else {
        spec_apply_index_group(spec_load_indexes(m, groups.drop_last()), groups.last())
    }
}

/// The indexes pass: group the index rows, resolve each index's column
/// names to positions with their sort directions, discard an index with no
/// usable column, and append the rest to their entities, exactly as
/// [`spec_load_indexes`] over [`spec_index_groups`] prescribes.
pub fn load_indexes(rows: &Vec<OraIndex>, mi: &mut MetaInfo)
    requires
        old(mi)@.wf(),
    ensures
        final (mi)@.schemas == spec_load_indexes(old(mi)@.schemas, spec_index_groups(rows@)),
        final (mi)@.wf(),
{
    let ghost base = old(mi)@.schemas;
    let groups = group_index_rows(rows);
    let ghost groupsv = spec_index_groups(rows@);
    proof {
        assert(groupsv.subrange(0, 0) =~= Seq::<IndexGroupV>::empty());
    }
    let n = groups.len();
    proof {
        assert(index_groups_v(groups@).len() == groupsv.len());
    }
    let mut i: usize = 0;
    while i < n
        invariant
            n == groups.len(),
            index_groups_v(groups@) == groupsv,
            0 <= i <= n,
            mi@.wf(),
            mi@.schemas == spec_load_indexes(base, groupsv.subrange(0, i as int)),
        decreases n - i,
    {
        let ghost prev = groupsv.subrange(0, i as int);
        let ghost cur = groupsv.subrange(0, i + 1);
        proof {
            assert(cur.drop_last() =~= prev);
            assert(cur.last() == groupsv[i as int]);
            assert(groupsv[i as int] == groups@[i as int]@);
        }
        let g = &groups[i];
        let sname = to_lowercase(g.owner.as_str());
        let ghost m0 = mi@.schemas;
        let ghost v0 = mi.schemas@;
        match find_pair_idx(&mi.schemas, &sname) {
            None => {
                proof {
                    assert(!assoc_has(m0, lower_of(g@.owner))) by {
                        if assoc_has(m0, lower_of(g@.owner)) {
                            let j = assoc_at(m0, lower_of(g@.owner));
                            assert(m0[j] == (v0[j].0@, v0[j].1@));
                            assert(false);
                        }
                    }
                }
            },
            Some(si) => {
                proof {
                    assert(m0[si as int] == (v0[si as int].0@, v0[si as int].1@));
                }
                let ename = to_lowercase(g.table_name.as_str());
                let ei_opt = find_pair_idx(&mi.schemas[si].1.entities, &ename);
                let ghost ents0 = mi.schemas@[si as int].1.entities@;
                match ei_opt {
                    None => {
                        proof {
                            assert(!assoc_has(m0[si as int].1.entities, lower_of(g@.table_name)))
                                by {
                                if assoc_has(m0[si as int].1.entities, lower_of(g@.table_name)) {
                                    let j = assoc_at(
                                        m0[si as int].1.entities,
                                        lower_of(g@.table_name),
                                    );
                                    assert(m0[si as int].1.entities[j] == (
                                        ents0[j].0@,
                                        ents0[j].1@,
                                    ));
                                    assert(false);
                                }
                            }
                            assert(mi@.schemas =~= m0);
                        }
                    },
                    Some(ei) => {
                        proof {
                            assert(m0[si as int].1.entities[ei as int] == (
                                ents0[ei as int].0@,
                                ents0[ei as int].1@,
                            ));
                        }
                        let ics = resolve_index_columns(
                            &mi.schemas[si].1.entities[ei].1.columns,
                            &g.columns,
                        );
                        let ghost e0 = m0[si as int].1.entities[ei as int].1;
                        if ics.len() > 0 {
                            let unique = str_eq_lit(&g.uniqueness, "UNIQUE");
                            let index = TableIndex { unique, columns: ics };
                            let ghost indexv = index@;
                            let sp = &mut mi.schemas[si];
                            let ep = &mut sp.1.entities[ei];
                            ep.1.indexes.push(index);
                            proof {
                                let e2 = EntityV {
                                    entity_type: e0.entity_type,
                                    num_rows: e0.num_rows,
                                    columns: e0.columns,
                                    primary_key: e0.primary_key,
                                    indexes: e0.indexes.push(indexv),
                                };
                                assert(ep.1@.indexes =~= e0.indexes.push(indexv)) by {
                                    assert(indexes_v(ep.1.indexes@) =~= e0.indexes.push(indexv));
                                }
                                assert(ep.1@ == e2);
                                assert(e2.wf()) by {
                                    assert(e0.wf());
                                    lemma_resolve_index_columns_bounds(e0.columns, g@.columns);
                                    assert(forall|a: int, b: int|
                                        0 <= a < e2.indexes.len() && 0 <= b
                                            < e2.indexes[a].columns.len() ==> (
                                        e2.indexes[a].columns[b].column_index as int)
                                            < e2.columns.len()) by {
                                        assert(forall|a: int|
                                            0 <= a < e0.indexes.len() ==> e2.indexes[a]
                                                == e0.indexes[a]);
                                        assert(e2.indexes.last() == indexv);
                                    }
                                }
                                assert(sp.1@.entities =~= m0[si as int].1.entities.update(
                                    ei as int,
                                    (lower_of(g@.table_name), e2),
                                ));
                            }
                            proof {
                                assert(mi@.schemas =~= m0.update(
                                    si as int,
                                    (v0[si as int].0@, sp.1@),
                                ));
                                lemma_entity_update(
                                    m0,
                                    mi@.schemas,
                                    si as int,
                                    assoc_at(m0[si as int].1.entities, lower_of(g@.table_name)),
                                    lower_of(g@.owner),
                                    lower_of(g@.table_name),
                                    EntityV {
                                        entity_type: e0.entity_type,
                                        num_rows: e0.num_rows,
                                        columns: e0.columns,
                                        primary_key: e0.primary_key,
                                        indexes: e0.indexes.push(
                                            TableIndexV {
                                                unique: g@.uniqueness == "UNIQUE"@,
                                                columns: spec_resolve_index_columns(
                                                    e0.columns,
                                                    g@.columns,
                                                ),
                                            },
                                        ),
                                    },
                                );
                            }
                        } else {
                            proof {
                                assert(mi@.schemas =~= m0);
                            }
                        }
                    },
                }
            },
        }
        proof {
            assert(spec_load_indexes(base, cur) == mi@.schemas);
        }
        i = i + 1;
    }
    proof {
        assert(groupsv.subrange(0, n as int) =~= groupsv);
    }
}


/// Run the four passes in order: entities, then columns, then primary keys,
/// then indexes, each consuming the prior pass's output.  No catalog is
/// produced unless every pass completes; the result is well formed and
/// exactly the composition of the four pass specifications.
pub fn load(
    tables: &Vec<OraTable>,
    columns: &Vec<OraColumn>,
    keys: &Vec<OraPrimaryKey>,
    indexes: &Vec<OraIndex>,
) -> (r: Result<MetaInfo, CatalogLoadError>)
    ensures
        match r {
            Ok(m) => spec_load_entities(tables@) matches Ok(m0) && m@.schemas == spec_load_indexes(
                spec_load_keys(spec_load_columns(m0, columns@), spec_key_groups(keys@)),
                spec_index_groups(indexes@),
            ) && m@.wf(),
            Err(e) => spec_load_entities(tables@) == Err::<Seq<(Seq<char>, SchemaV)>, Seq<char>>(
                e.kind@,
            ),
        },
{
    match load_entities(tables) {
        Err(e) => Err(e),
        Ok(mut mi) => {
            load_columns(columns, &mut mi);
            load_primary_keys(keys, &mut mi);
            load_indexes(indexes, &mut mi);
            Ok(mi)
        },
    }
}

/// Which schemas the loader may read: everything the store reports, less
/// the configured exclusions.
pub struct OthersConfig {
    pub excludes: Vec<String>,
}

/// The quoted owner names that survive the exclusion list, in arrival
/// order.
pub open spec fn spec_available_schemas(
    names: Seq<Seq<char>>,
    excludes: Seq<Seq<char>>,
) -> Seq<Seq<char>>
    decreases names.len(),
{
    if names.len() == 0 {
        Seq::empty()
    } else {
        let prev = spec_available_schemas(names.drop_last(), excludes);
        if excludes.contains(names.last()) {
            prev
        } else {
            prev.push("'"@ + names.last() + "'"@)
        }
    }
}

/// Whether a string occurs in a list.
fn contains_string(v: &Vec<String>, s: &String) -> (r: bool)
    ensures
        r == str_views(v@).contains(s@),
{
    let n = v.len();
    let mut i: usize = 0;
    while i < n
        invariant
            n == v.len(),
            0 <= i <= n,
            forall|j: int| 0 <= j < i ==> str_views(v@)[j] != s@,
        decreases n - i,
    {
        if v[i] == *s {
            proof {
                assert(str_views(v@)[i as int] == s@);
            }
            return true;
        }
        proof {
            assert(str_views(v@)[i as int] == v@[i as int]@);
        }
        i = i + 1;
    }
    proof {
        if str_views(v@).contains(s@) {
            let j = choose|j: int| 0 <= j < str_views(v@).len() && str_views(v@)[j] == s@;
            assert(false);
        }
    }
    false
}

/// The schema enumeration step of the loader: quote each reported owner
/// name and join them with commas, leaving out the configured exclusions,
/// exactly as [`spec_available_schemas`] prescribes.
pub fn load_available_schemas(owners: &Vec<String>, others: &Option<OthersConfig>) -> (r: String)
    ensures
        r@ == crate::query::sep_join(
            spec_available_schemas(
                str_views(owners@),
                match others {
                    Some(o) => str_views(o.excludes@),
                    None => Seq::<Seq<char>>::empty(),
                },
            ),
            ","@,
        ),
{
    let ghost names = str_views(owners@);
    let ghost excludes = match others {
        Some(o) => str_views(o.excludes@),
        None => Seq::<Seq<char>>::empty(),
    };
    proof {
        assert(names.subrange(0, 0) =~= Seq::<Seq<char>>::empty());
    }
    let mut parts: Vec<String> = Vec::new();
    proof {
        assert(str_views(parts@) =~= Seq::<Seq<char>>::empty());
    }
    let n = owners.len();
    let mut i: usize = 0;
    while i < n
        invariant
            n == owners.len(),
            names == str_views(owners@),
            excludes == (match others {
                Some(o) => str_views(o.excludes@),
                None => Seq::<Seq<char>>::empty(),
            }),
            0 <= i <= n,
            str_views(parts@) == spec_available_schemas(names.subrange(0, i as int), excludes),
        decreases n - i,
    {
        let ghost prev = names.subrange(0, i as int);
        let ghost cur = names.subrange(0, i + 1);
        proof {
            assert(cur.drop_last() =~= prev);
            assert(cur.last() == names[i as int]);
            assert(names[i as int] == owners@[i as int]@);
        }
        let owner = &owners[i];
        let excluded = match others {
            Some(o) => contains_string(&o.excludes, owner),
            None => false,
        };
        if !excluded {
            let ghost parts0 = str_views(parts@);
            let mut part = String::from_str("'");
            part.append(owner.as_str());
            part.append("'");
            proof {
                assert(part@ =~= "'"@ + names[i as int] + "'"@);
            }
            parts.push(part);
            proof {
                assert(str_views(parts@) =~= parts0.push("'"@ + names[i as int] + "'"@));
            }
        }
        i = i + 1;
    }
    proof {
        assert(names.subrange(0, n as int) =~= names);
    }
    let mut sql = String::new();
    crate::query::append_join(&mut sql, &parts, ",");
    sql
}

} // verus!





