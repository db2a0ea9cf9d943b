//! The catalog model: an immutable in-memory graph of schemas, entities,
//! columns, primary keys and indexes, built once at startup and then only
//! read.  Entities keep their columns in physical ordinal order; primary-key
//! and index structures refer to columns by position into that order.

use vstd::prelude::*;

verus! {

/// Kind of a catalogued entity.
#[derive(Clone, Copy, Debug, PartialEq, Eq, Structural)]
pub enum EntityType {
    Table,
    View,
    Temporary,
}

/// Semantic type of a column, independent of the backing store's native type.
#[derive(Clone, Copy, Debug, PartialEq, Eq, Structural)]
pub enum ColumnType {
    Integer,
    String,
    Number,
    DateTime,
    Unsupported,
}

/// Backend type tag of a column.  The engine carries it through to
/// execution-time parameter binding but never interprets it.
#[derive(Clone, Copy, Debug, PartialEq, Eq, Structural)]
pub enum SqlType {
    Varchar2(u32),
    Long,
    Date,
    Number(u8, i8),
    UInt64,
}

/// One column of an entity.
pub struct Column {
    pub name: String,
    pub col_type: ColumnType,
    pub sql_type: SqlType,
    /// Byte width of the column's values.
    pub col_size: u16,
    pub nullable: bool,
}

/// Mathematical value of a [`Column`].
pub struct ColumnV {
    pub name: Seq<char>,
    pub col_type: ColumnType,
    pub sql_type: SqlType,
    pub col_size: u16,
    pub nullable: bool,
}

impl View for Column {
    type V = ColumnV;

    open spec fn view(&self) -> ColumnV {
        ColumnV {
            name: self.name@,
            col_type: self.col_type,
            sql_type: self.sql_type,
            col_size: self.col_size,
            nullable: self.nullable,
        }
    }
}

impl Clone for Column {
    fn clone(&self) -> (r: Self)
        ensures
            r@ == self@,
    {
        Column {
            name: self.name.clone(),
            col_type: self.col_type,
            sql_type: self.sql_type,
            col_size: self.col_size,
            nullable: self.nullable,
        }
    }
}

/// Values of a sequence of columns.
pub open spec fn cols_v(s: Seq<Column>) -> Seq<ColumnV> {
    s.map_values(|c: Column| c@)
}

/// One column of an index: a position into the owning entity's column list
/// and the sort direction.
#[derive(Clone, Copy, Debug, PartialEq, Eq, Structural)]
pub struct IndexColumn {
    pub column_index: usize,
    pub desc: bool,
}

/// An index over an entity's columns.
pub struct TableIndex {
    pub unique: bool,
    pub columns: Vec<IndexColumn>,
}

/// Mathematical value of a [`TableIndex`].
pub struct TableIndexV {
    pub unique: bool,
    pub columns: Seq<IndexColumn>,
}

impl View for TableIndex {
    type V = TableIndexV;

    open spec fn view(&self) -> TableIndexV {
        TableIndexV { unique: self.unique, columns: self.columns@ }
    }
}

/// Values of a sequence of indexes.
pub open spec fn indexes_v(s: Seq<TableIndex>) -> Seq<TableIndexV> {
    s.map_values(|x: TableIndex| x@)
}

/// A table, view or temporary table: its columns in physical order, an
/// optional primary key given as ordered column positions, and its indexes.
pub struct Entity {
    pub entity_type: EntityType,
    pub num_rows: Option<u32>,
    pub columns: Vec<Column>,
    pub primary_key: Option<Vec<usize>>,
    pub indexes: Vec<TableIndex>,
}

/// Mathematical value of an [`Entity`].
pub struct EntityV {
    pub entity_type: EntityType,
    pub num_rows: Option<u32>,
    pub columns: Seq<ColumnV>,
    pub primary_key: Option<Seq<usize>>,
    pub indexes: Seq<TableIndexV>,
}

impl View for Entity {
    type V = EntityV;

    open spec fn view(&self) -> EntityV {
        EntityV {
            entity_type: self.entity_type,
            num_rows: self.num_rows,
            columns: cols_v(self.columns@),
            primary_key: match self.primary_key {
                Some(pk) => Some(pk@),
                None => None,
            },
            indexes: indexes_v(self.indexes@),
        }
    }
}

impl EntityV {
    /// Every column position held by the primary key or an index is a valid
    /// index into the column list.
    pub open spec fn wf(self) -> bool {
        &&& match self.primary_key {
            Some(pk) => forall|i: int| 0 <= i < pk.len() ==> (pk[i] as int) < self.columns.len(),
            None => true,
        }
        &&& forall|i: int, j: int|
            0 <= i < self.indexes.len() && 0 <= j < self.indexes[i].columns.len() ==> (
            self.indexes[i].columns[j].column_index as int) < self.columns.len()
    }

    /// The names of the columns, in catalog order.
    pub open spec fn column_names(self) -> Seq<Seq<char>> {
        self.columns.map_values(|c: ColumnV| c.name)
    }
}

/// Key sequence of an association list.
pub open spec fn assoc_keys<T>(s: Seq<(Seq<char>, T)>) -> Seq<Seq<char>> {
    s.map_values(|p: (Seq<char>, T)| p.0)
}

/// The association list holds an entry for `k`.
pub open spec fn assoc_has<T>(s: Seq<(Seq<char>, T)>, k: Seq<char>) -> bool {
    exists|i: int| 0 <= i < s.len() && s[i].0 == k
}

/// An index at which `k` is bound (unique when keys are distinct).
pub open spec fn assoc_at<T>(s: Seq<(Seq<char>, T)>, k: Seq<char>) -> int {
    choose|i: int| 0 <= i < s.len() && s[i].0 == k
}

/// The value bound to `k`.
pub open spec fn assoc_get<T>(s: Seq<(Seq<char>, T)>, k: Seq<char>) -> T {
    s[assoc_at(s, k)].1
}

/// No key occurs twice.
pub open spec fn distinct_keys<T>(s: Seq<(Seq<char>, T)>) -> bool {
    forall|i: int, j: int| 0 <= i < j < s.len() ==> s[i].0 != s[j].0
}

/// Bind `k` to `v`: replace the existing entry, or append a new one.
pub open spec fn assoc_put<T>(s: Seq<(Seq<char>, T)>, k: Seq<char>, v: T) -> Seq<(Seq<char>, T)> {
    if assoc_has(s, k) {
        s.update(assoc_at(s, k), (k, v))
    } else {
        s.push((k, v))
    }
}

/// A schema: its entities, keyed by normalized entity name.
pub struct Schema {
    pub entities: Vec<(String, Entity)>,
}

/// Mathematical value of a [`Schema`].
pub struct SchemaV {
    pub entities: Seq<(Seq<char>, EntityV)>,
}

impl View for Schema {
    type V = SchemaV;

    open spec fn view(&self) -> SchemaV {
        SchemaV { entities: self.entities@.map_values(|p: (String, Entity)| (p.0@, p.1@)) }
    }
}

impl SchemaV {
    /// Entity names are unique and every entity is well formed.
    pub open spec fn wf(self) -> bool {
        &&& distinct_keys(self.entities)
        &&& forall|i: int| 0 <= i < self.entities.len() ==> (#[trigger] self.entities[i].1).wf()
    }
}

/// The whole catalog: schemas keyed by normalized schema name.
pub struct MetaInfo {
    pub schemas: Vec<(String, Schema)>,
}

/// Mathematical value of a [`MetaInfo`].
pub struct MetaInfoV {
    pub schemas: Seq<(Seq<char>, SchemaV)>,
}

impl View for MetaInfo {
    type V = MetaInfoV;

    open spec fn view(&self) -> MetaInfoV {
        MetaInfoV { schemas: self.schemas@.map_values(|p: (String, Schema)| (p.0@, p.1@)) }
    }
}

impl MetaInfoV {
    /// Schema names are unique and every schema is well formed.
    pub open spec fn wf(self) -> bool {
        &&& distinct_keys(self.schemas)
        &&& forall|i: int| 0 <= i < self.schemas.len() ==> (#[trigger] self.schemas[i].1).wf()
    }
}

/// Each entry of a catalog view is the view of the matching entry of the
/// underlying vector.
proof fn lemma_metainfo_view_index(m: &MetaInfo, i: int)
    requires
        0 <= i < m.schemas@.len(),
    ensures
        m@.schemas.len() == m.schemas@.len(),
        m@.schemas[i] == (m.schemas@[i].0@, m.schemas@[i].1@),
{
}

/// Each entry of a schema view is the view of the matching entry of the
/// underlying vector.
proof fn lemma_schema_view_index(s: &Schema, i: int)
    requires
        0 <= i < s.entities@.len(),
    ensures
        s@.entities.len() == s.entities@.len(),
        s@.entities[i] == (s.entities@[i].0@, s.entities@[i].1@),
{
}

impl MetaInfo {
    /// Look a schema up by its normalized name.
    pub fn find_schema<'s>(&'s self, name: &str) -> (r: Option<&'s Schema>)
        requires
            self@.wf(),
        ensures
            match r {
                Some(schema) => assoc_has(self@.schemas, name@) && schema@ == assoc_get(
                    self@.schemas,
                    name@,
                ),
                None => !assoc_has(self@.schemas, name@),
            },
    {
        let key: String = String::from_str(name);
        let n = self.schemas.len();
        let mut i: usize = 0;
        while i < n
            invariant
                self@.wf(),
                n == self.schemas.len(),
                key@ == name@,
                0 <= i <= n,
                forall|j: int| 0 <= j < i ==> self@.schemas[j].0 != name@,
            decreases n - i,
        {
            let p = &self.schemas[i];
            proof {
                lemma_metainfo_view_index(self, i as int);
            }
            if p.0 == key {
                proof {
                    assert(self@.schemas[i as int].0 == name@);
                    let j = assoc_at(self@.schemas, name@);
                    assert(0 <= j < self@.schemas.len() && self@.schemas[j].0 == name@);
                    if j != i as int {
                        assert(false);
                    }
                }
                return Some(&p.1);
            }
            i = i + 1;
        }
        None
    }

    /// The names of all schemas, in the catalog's own (unspecified) order.
    pub fn schema_names(&self) -> (r: Vec<String>)
        ensures
            r@.map_values(|s: String| s@) == assoc_keys(self@.schemas),
    {
        let n = self.schemas.len();
        let mut out: Vec<String> = Vec::new();
        let mut i: usize = 0;
        while i < n
            invariant
                n == self.schemas.len(),
                0 <= i <= n,
                out@.len() == i,
                forall|j: int| 0 <= j < i ==> out@.map_values(|s: String| s@)[j]
                    == self@.schemas[j].0,
            decreases n - i,
        {
            out.push(self.schemas[i].0.clone());
            i = i + 1;
        }
        proof {
            assert(out@.map_values(|s: String| s@) =~= assoc_keys(self@.schemas));
        }
        out
    }
}

impl Schema {
    /// Look an entity up by its normalized name.
    pub fn find_entity<'s>(&'s self, name: &str) -> (r: Option<&'s Entity>)
        requires
            self@.wf(),
        ensures
            match r {
                Some(entity) => assoc_has(self@.entities, name@) && entity@ == assoc_get(
                    self@.entities,
                    name@,
                ),
                None => !assoc_has(self@.entities, name@),
            },
    {
        let key: String = String::from_str(name);
        let n = self.entities.len();
        let mut i: usize = 0;
        while i < n
            invariant
                self@.wf(),
                n == self.entities.len(),
                key@ == name@,
                0 <= i <= n,
                forall|j: int| 0 <= j < i ==> self@.entities[j].0 != name@,
            decreases n - i,
        {
            let p = &self.entities[i];
            proof {
                lemma_schema_view_index(self, i as int);
            }
            if p.0 == key {
                proof {
                    assert(self@.entities[i as int].0 == name@);
                    let j = assoc_at(self@.entities, name@);
                    assert(0 <= j < self@.entities.len() && self@.entities[j].0 == name@);
                    if j != i as int {
                        assert(false);
                    }
                }
                return Some(&p.1);
            }
            i = i + 1;
        }
        None
    }

    /// All `(name, entity)` pairs of the schema, in the catalog's own
    /// (unspecified) order.
    pub fn entities_iter<'s>(&'s self) -> (r: &'s Vec<(String, Entity)>)
        ensures
            r@.map_values(|p: (String, Entity)| (p.0@, p.1@)) == self@.entities,
    {
        &self.entities
    }
}

} // verus!

