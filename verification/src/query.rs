//! The dynamic query builder: validates a request against the catalog and
//! emits SQL text, a fetch-size hint, the ordered bound parameters and the
//! column projection list.
//!
//! The central safety contract: identifiers (schema, entity, column names)
//! are spliced into the SQL text only after they were matched against the
//! catalog, while request *values* never appear in the text — they travel
//! exclusively in the bound-parameter list, referenced by `:1`, `:2`, ...
//! placeholders.

use crate::catalog::{cols_v, Column, ColumnV, Entity, EntityV};
use crate::codec::{spec_parse, CodecError, Parameter, ParameterV};
use crate::numtext::{dec_of, u64_to_dec};
use vstd::prelude::*;

verus! {

/// Views of a sequence of strings.
pub open spec fn str_views(s: Seq<String>) -> Seq<Seq<char>> {
    s.map_values(|x: String| x@)
}

/// Views of a sequence of parameters.
pub open spec fn params_v(s: Seq<Parameter>) -> Seq<ParameterV> {
    s.map_values(|p: Parameter| p@)
}

/// The column names a parameter list binds to, in order.
pub open spec fn param_names(s: Seq<ParameterV>) -> Seq<Seq<char>> {
    s.map_values(|p: ParameterV| p.column.name)
}

/// Why a request was rejected during validation against the catalog.
#[derive(Debug)]
pub enum ValidationError {
    /// A by-primary-key request against an entity without a primary key.
    NoPrimaryKey,
    /// The number of key values differs from the key's column count.
    KeyCountMismatch,
    /// A value failed to parse against its column (names the offending value
    /// and column, and the codec's reason).
    Parameter { value: String, column: String, cause: CodecError },
    /// A filter column name that does not exist on the entity.
    UnknownColumn { column: String },
    /// An order-by column name that does not exist on the entity.
    UnknownOrderColumn { column: String, entity: String },
    /// A limit of zero was requested.
    LimitZero,
    /// A limit above the maximum page size was requested.
    LimitTooLarge,
    /// An offset below the page size was requested.
    OffsetBelowLimit,
    /// An offset that is not a multiple of the page size was requested.
    OffsetNotAligned,
}

/// Mathematical value of a [`ValidationError`].
pub enum ValidationErrorV {
    NoPrimaryKey,
    KeyCountMismatch,
    Parameter { value: Seq<char>, column: Seq<char>, cause: CodecError },
    UnknownColumn { column: Seq<char> },
    UnknownOrderColumn { column: Seq<char>, entity: Seq<char> },
    LimitZero,
    LimitTooLarge,
    OffsetBelowLimit,
    OffsetNotAligned,
}

impl View for ValidationError {
    type V = ValidationErrorV;

    open spec fn view(&self) -> ValidationErrorV {
        match self {
            ValidationError::NoPrimaryKey => ValidationErrorV::NoPrimaryKey,
            ValidationError::KeyCountMismatch => ValidationErrorV::KeyCountMismatch,
            ValidationError::Parameter { value, column, cause } => ValidationErrorV::Parameter {
                value: value@,
                column: column@,
                cause: *cause,
            },
            ValidationError::UnknownColumn { column } => ValidationErrorV::UnknownColumn {
                column: column@,
            },
            ValidationError::UnknownOrderColumn { column, entity } => (
            ValidationErrorV::UnknownOrderColumn { column: column@, entity: entity@ }),
            ValidationError::LimitZero => ValidationErrorV::LimitZero,
            ValidationError::LimitTooLarge => ValidationErrorV::LimitTooLarge,
            ValidationError::OffsetBelowLimit => ValidationErrorV::OffsetBelowLimit,
            ValidationError::OffsetNotAligned => ValidationErrorV::OffsetNotAligned,
        }
    }
}

impl ValidationErrorV {
    /// The text [`ValidationError::message`] returns.
    pub open spec fn spec_message(self) -> Seq<char> {
        match self {
            ValidationErrorV::NoPrimaryKey => "Primary key not exists"@,
            ValidationErrorV::KeyCountMismatch => (
            "Count of columns in primary key does not match with count of parameters in query"@),
            ValidationErrorV::Parameter { value, column, cause } => (
            "Can not parse parameter value "@ + value + " for column "@ + column + ": "@
                + cause.spec_message()),
            ValidationErrorV::UnknownColumn { column } => "Not found column "@ + column,
            ValidationErrorV::UnknownOrderColumn { column, entity } => (
            "Order column "@ + column + " not found in table "@ + entity),
            ValidationErrorV::LimitZero => "limit rows must be >= 1"@,
            ValidationErrorV::LimitTooLarge => "limit rows must be <= 100"@,
            ValidationErrorV::OffsetBelowLimit => "offset must be >= limit"@,
            ValidationErrorV::OffsetNotAligned => (
            "offset must be a multiple of the limit (remainder must be zero)"@),
        }
    }
}

impl ValidationError {
    /// An explanatory message naming what was rejected.
    pub fn message(&self) -> (r: String)
        ensures
            r@ == self@.spec_message(),
    {
        match self {
            ValidationError::NoPrimaryKey => String::from_str("Primary key not exists"),
            ValidationError::KeyCountMismatch => String::from_str(
                "Count of columns in primary key does not match with count of parameters in query",
            ),
            ValidationError::Parameter { value, column, cause } => {
                let mut m = String::from_str("Can not parse parameter value ");
                m.append(value.as_str());
                m.append(" for column ");
                m.append(column.as_str());
                m.append(": ");
                m.append(cause.message());
                proof {
                    assert(m@ =~= self@.spec_message());
                }
                m
            },
            ValidationError::UnknownColumn { column } => {
                let mut m = String::from_str("Not found column ");
                m.append(column.as_str());
                m
            },
            ValidationError::UnknownOrderColumn { column, entity } => {
                let mut m = String::from_str("Order column ");
                m.append(column.as_str());
                m.append(" not found in table ");
                m.append(entity.as_str());
                proof {
                    assert(m@ =~= self@.spec_message());
                }
                m
            },
            ValidationError::LimitZero => String::from_str("limit rows must be >= 1"),
            ValidationError::LimitTooLarge => String::from_str("limit rows must be <= 100"),
            ValidationError::OffsetBelowLimit => String::from_str("offset must be >= limit"),
            ValidationError::OffsetNotAligned => String::from_str(
                "offset must be a multiple of the limit (remainder must be zero)",
            ),
        }
    }
}

/// `parts` joined with the separator `sep` between consecutive parts.
pub open spec fn sep_join(parts: Seq<Seq<char>>, sep: Seq<char>) -> Seq<char>
    decreases parts.len(),
{
    if parts.len() == 0 {
        Seq::empty()
    } else if parts.len() == 1 {
        parts[0]
    } else {
        sep_join(parts.drop_last(), sep) + sep + parts.last()
    }
}

/// Joining one more part appends a separator (when anything precedes it) and
/// the part.
pub proof fn lemma_sep_join_push(parts: Seq<Seq<char>>, sep: Seq<char>, x: Seq<char>)
    ensures
        sep_join(parts.push(x), sep) == if parts.len() == 0 {
            x
        } else {
            sep_join(parts, sep) + sep + x
        },
{
    let p2 = parts.push(x);
    if parts.len() == 0 {
        assert(p2.len() == 1);
        assert(p2[0] == x);
    } else {
        assert(p2.drop_last() =~= parts);
        assert(p2.last() == x);
    }
}

/// The equality conjuncts of the WHERE clause: one `name = :k` per bound
/// column, with placeholders numbered from 1 in parameter order.
pub open spec fn where_clause(names: Seq<Seq<char>>) -> Seq<char> {
    sep_join(
        Seq::new(names.len(), |i: int| names[i] + " = :"@ + dec_of((i + 1) as nat)),
        " AND "@,
    )
}

/// The complete emitted SQL text.  Only catalog identifiers, placeholder
/// numbers and paging numbers occur in it; request values do not.
pub open spec fn spec_sql(
    schema: Seq<char>,
    entity: Seq<char>,
    cols: Seq<Seq<char>>,
    pnames: Seq<Seq<char>>,
    order: Seq<Seq<char>>,
    limit: u32,
    offset: Option<u32>,
) -> Seq<char> {
    "SELECT "@ + sep_join(cols, ","@) + " FROM "@ + schema + "."@ + entity + " WHERE "@
        + where_clause(pnames) + (if order.len() > 0 {
        " ORDER BY "@ + sep_join(order, ","@)
    } else {
        Seq::<char>::empty()
    }) + (if limit > 1 {
        (match offset {
            Some(o) => " OFFSET "@ + dec_of(o as nat) + " ROWS"@,
            None => Seq::<char>::empty(),
        }) + " FETCH NEXT "@ + dec_of(limit as nat) + " ROWS ONLY"@
    } else {
        Seq::<char>::empty()
    })
}

/// Append `parts` to `sql`, separated by `sep`.
pub(crate) fn append_join(sql: &mut String, parts: &Vec<String>, sep: &str)
    ensures
        final (sql)@ == old(sql)@ + sep_join(str_views(parts@), sep@),
{
    let ghost base = old(sql)@;
    let ghost views = str_views(parts@);
    let n = parts.len();
    let mut i: usize = 0;
    while i < n
        invariant
            n == parts.len(),
            views == str_views(parts@),
            0 <= i <= n,
            sql@ == base + sep_join(views.subrange(0, i as int), sep@),
        decreases n - i,
    {
        if i > 0 {
            sql.append(sep);
        }
        sql.append(parts[i].as_str());
        proof {
            let prev = views.subrange(0, i as int);
            let cur = views.subrange(0, i + 1);
            assert(cur =~= prev.push(views[i as int]));
            lemma_sep_join_push(prev, sep@, views[i as int]);
            assert(views[i as int] == parts@[i as int]@);
            assert(sql@ =~= base + sep_join(cur, sep@));
        }
        i = i + 1;
    }
    proof {
        assert(views.subrange(0, n as int) =~= views);
    }
}

/// Build the SQL text for a query over `schema_name.entity_name`: project all
/// of `columns`, constrain by equality on the columns of `params` (bound as
/// `:1`, `:2`, ... in order), optionally order by `order`, and page by
/// `limit` / `offset` when more than one row is fetched.
pub fn generate_sql(
    schema_name: &str,
    entity_name: &str,
    columns: &Vec<Column>,
    params: &Vec<Parameter>,
    order: &Vec<String>,
    limit: u32,
    offset: Option<u32>,
) -> (r: String)
    ensures
        r@ == spec_sql(
            schema_name@,
            entity_name@,
            cols_v(columns@).map_values(|c: ColumnV| c.name),
            param_names(params_v(params@)),
            str_views(order@),
            limit,
            offset,
        ),
{
    let ghost col_name_views = cols_v(columns@).map_values(|c: ColumnV| c.name);
    let ghost pname_views = param_names(params_v(params@));

    let mut col_names: Vec<String> = Vec::new();
    let n = columns.len();
    let mut i: usize = 0;
    while i < n
        invariant
            n == columns.len(),
            col_name_views == cols_v(columns@).map_values(|c: ColumnV| c.name),
            0 <= i <= n,
            col_names@.len() == i,
            forall|j: int| 0 <= j < i ==> col_names@[j]@ == col_name_views[j],
        decreases n - i,
    {
        col_names.push(columns[i].name.clone());
        proof {
            assert(col_name_views[i as int] == columns@[i as int]@.name);
        }
        i = i + 1;
    }
    proof {
        assert(str_views(col_names@) =~= col_name_views);
    }

    let mut parts: Vec<String> = Vec::new();
    let m = params.len();
    let mut i: usize = 0;
    while i < m
        invariant
            m == params.len(),
            pname_views == param_names(params_v(params@)),
            0 <= i <= m,
            parts@.len() == i,
            forall|j: int| 0 <= j < i ==> parts@[j]@ == pname_views[j] + " = :"@ + dec_of(
                (j + 1) as nat,
            ),
        decreases m - i,
    {
        let mut part = String::new();
        part.append(params[i].column.name.as_str());
        part.append(" = :");
        let d = u64_to_dec(i as u64 + 1);
        part.append(d.as_str());
        parts.push(part);
        proof {
            assert(pname_views[i as int] == params@[i as int]@.column.name);
            assert(part@ =~= pname_views[i as int] + " = :"@ + dec_of((i + 1) as nat));
        }
        i = i + 1;
    }
    proof {
        assert(str_views(parts@) =~= Seq::new(
            m as nat,
            |j: int| pname_views[j] + " = :"@ + dec_of((j + 1) as nat),
        ));
    }

    let mut sql = String::new();
    sql.append("SELECT ");
    append_join(&mut sql, &col_names, ",");
    sql.append(" FROM ");
    sql.append(schema_name);
    sql.append(".");
    sql.append(entity_name);
    sql.append(" WHERE ");
    append_join(&mut sql, &parts, " AND ");
    if order.len() > 0 {
        sql.append(" ORDER BY ");
        append_join(&mut sql, order, ",");
    }
    if limit > 1 {
        match offset {
            Some(o) => {
                sql.append(" OFFSET ");
                let d = u64_to_dec(o as u64);
                sql.append(d.as_str());
                sql.append(" ROWS");
            },
            None => {},
        }
        sql.append(" FETCH NEXT ");
        let d = u64_to_dec(limit as u64);
        sql.append(d.as_str());
        sql.append(" ROWS ONLY");
    }
    proof {
        assert(sql@ =~= spec_sql(
            schema_name@,
            entity_name@,
            col_name_views,
            pname_views,
            str_views(order@),
            limit,
            offset,
        ));
    }
    sql
}

/// Index of the first column from position `i` on whose name is `name`, or
/// `-1` when none matches.
pub open spec fn col_idx_from(cols: Seq<ColumnV>, name: Seq<char>, i: int) -> int
    decreases cols.len() - i,
{
    if i < 0 || i >= cols.len() {
        -1
    } else if cols[i].name == name {
        i
    } else {
        col_idx_from(cols, name, i + 1)
    }
}

/// Index of the first column named `name`, or `-1` when none matches.
pub open spec fn col_idx(cols: Seq<ColumnV>, name: Seq<char>) -> int {
    col_idx_from(cols, name, 0)
}

/// What `col_idx_from` finds: a valid position bearing the name, preceded by
/// no other, or `-1` exactly when the name occurs nowhere from `i` on.
pub proof fn lemma_col_idx_from(cols: Seq<ColumnV>, name: Seq<char>, i: int)
    requires
        0 <= i <= cols.len(),
    ensures
        ({
            let r = col_idx_from(cols, name, i);
            &&& (r == -1 ==> forall|j: int| i <= j < cols.len() ==> cols[j].name != name)
            &&& (r != -1 ==> i <= r < cols.len() && cols[r].name == name && forall|j: int|
                i <= j < r ==> cols[j].name != name)
        }),
    decreases cols.len() - i,
{
    if i < cols.len() && cols[i].name != name {
        lemma_col_idx_from(cols, name, i + 1);
    }
}

/// Find the first column of `columns` whose name equals `name`, as
/// [`col_idx`] prescribes.
pub(crate) fn find_col_idx(columns: &Vec<Column>, name: &String) -> (r: Option<usize>)
    ensures
        match r {
            Some(i) => col_idx(cols_v(columns@), name@) == i as int && i < columns@.len(),
            None => col_idx(cols_v(columns@), name@) == -1,
        },
{
    let ghost cols = cols_v(columns@);
    let n = columns.len();
    let mut i: usize = 0;
    while i < n
        invariant
            n == columns.len(),
            cols == cols_v(columns@),
            0 <= i <= n,
            forall|j: int| 0 <= j < i ==> cols[j].name != name@,
        decreases n - i,
    {
        if columns[i].name == *name {
            proof {
                assert(cols[i as int].name == name@);
                lemma_col_idx_from(cols, name@, 0);
                let r = col_idx(cols, name@);
                if r == -1 {
                    assert(false);
                }
                if r != i as int {
                    assert(false);
                }
            }
            return Some(i);
        }
        i = i + 1;
    }
    proof {
        lemma_col_idx_from(cols, name@, 0);
        let r = col_idx(cols, name@);
        if r != -1 {
            assert(false);
        }
    }
    None
}

/// An executable query descriptor: the SQL text, the fetch-size hint for the
/// execution layer, the ordered bound parameters, and the entity's column
/// list for row projection.
pub struct DynamicQuery {
    pub sql: String,
    pub fetch_array_size: u32,
    pub columns: Vec<Column>,
    pub params: Vec<Parameter>,
}

/// Mathematical value of a [`DynamicQuery`].
pub struct DynamicQueryV {
    pub sql: Seq<char>,
    pub fetch_array_size: u32,
    pub columns: Seq<ColumnV>,
    pub params: Seq<ParameterV>,
}

impl View for DynamicQuery {
    type V = DynamicQueryV;

    open spec fn view(&self) -> DynamicQueryV {
        DynamicQueryV {
            sql: self.sql@,
            fetch_array_size: self.fetch_array_size,
            columns: cols_v(self.columns@),
            params: params_v(self.params@),
        }
    }
}

/// Typed parameters for a by-primary-key request: value `k` is parsed
/// against key column `k`, in primary-key order; the first failure names the
/// offending value and column.
pub open spec fn spec_pk_params(e: EntityV, pk: Seq<usize>, vals: Seq<Seq<char>>) -> Result<
    Seq<ParameterV>,
    ValidationErrorV,
>
    decreases vals.len(),
{
    if vals.len() == 0 {
        Ok(Seq::empty())
    } else {
        match spec_pk_params(e, pk.drop_last(), vals.drop_last()) {
            Err(x) => Err(x),
            Ok(ps) => {
                let i = vals.len() - 1;
                let col = e.columns[pk[i] as int];
                match spec_parse(col, vals[i]) {
                    Err(ce) => Err(
                        ValidationErrorV::Parameter {
                            value: vals[i],
                            column: col.name,
                            cause: ce,
                        },
                    ),
                    Ok(v) => Ok(ps.push(ParameterV { column: col, value: v })),
                }
            },
        }
    }
}

/// Outcome of a by-primary-key request: the entity must have a primary key,
/// the value count must equal the key's column count, and every value must
/// parse against its key column; the emitted SQL constrains the key columns
/// in primary-key order with fetch size one.
pub open spec fn spec_create_from_pk(
    schema: Seq<char>,
    ename: Seq<char>,
    e: EntityV,
    vals: Seq<Seq<char>>,
) -> Result<DynamicQueryV, ValidationErrorV> {
    match e.primary_key {
        None => Err(ValidationErrorV::NoPrimaryKey),
        Some(pk) => if vals.len() != pk.len() {
            Err(ValidationErrorV::KeyCountMismatch)
        } else {
            match spec_pk_params(e, pk, vals) {
                Err(x) => Err(x),
                Ok(ps) => Ok(
                    DynamicQueryV {
                        sql: spec_sql(
                            schema,
                            ename,
                            e.column_names(),
                            param_names(ps),
                            Seq::empty(),
                            1,
                            None,
                        ),
                        fetch_array_size: 1,
                        columns: e.columns,
                        params: ps,
                    },
                ),
            }
        },
    }
}

/// An error in a prefix of the key values decides the whole parse.
proof fn lemma_pk_params_err_propagates(e: EntityV, pk: Seq<usize>, vals: Seq<Seq<char>>, k: int)
    requires
        0 <= k <= vals.len(),
        pk.len() == vals.len(),
        spec_pk_params(e, pk.subrange(0, k), vals.subrange(0, k)) is Err,
    ensures
        spec_pk_params(e, pk, vals) == spec_pk_params(e, pk.subrange(0, k), vals.subrange(0, k)),
    decreases vals.len() - k,
{
    if k < vals.len() {
        assert(pk.subrange(0, k + 1).drop_last() =~= pk.subrange(0, k));
        assert(vals.subrange(0, k + 1).drop_last() =~= vals.subrange(0, k));
        lemma_pk_params_err_propagates(e, pk, vals, k + 1);
    } else {
        assert(pk.subrange(0, k) =~= pk);
        assert(vals.subrange(0, k) =~= vals);
    }
}

/// Clone a column list, preserving its value.
fn clone_columns(cols: &Vec<Column>) -> (r: Vec<Column>)
    ensures
        cols_v(r@) == cols_v(cols@),
{
    let n = cols.len();
    let mut out: Vec<Column> = Vec::new();
    let mut i: usize = 0;
    while i < n
        invariant
            n == cols.len(),
            0 <= i <= n,
            out@.len() == i,
            forall|j: int| 0 <= j < i ==> out@[j]@ == cols@[j]@,
        decreases n - i,
    {
        out.push(cols[i].clone());
        i = i + 1;
    }
    proof {
        assert(cols_v(out@) =~= cols_v(cols@));
    }
    out
}

impl DynamicQuery {
    /// Build a single-row query that selects the entity's columns and
    /// constrains its primary-key columns, in key order, to the given raw
    /// values, exactly as [`spec_create_from_pk`] prescribes.
    pub fn create_from_pk(
        schema_name: &str,
        entity_name: &str,
        entity: &Entity,
        pk_params: Vec<String>,
    ) -> (r: Result<DynamicQuery, ValidationError>)
        requires
            entity@.wf(),
        ensures
            match r {
                Ok(q) => spec_create_from_pk(
                    schema_name@,
                    entity_name@,
                    entity@,
                    str_views(pk_params@),
                ) == Ok::<DynamicQueryV, ValidationErrorV>(q@),
                Err(e) => spec_create_from_pk(
                    schema_name@,
                    entity_name@,
                    entity@,
                    str_views(pk_params@),
                ) == Err::<DynamicQueryV, ValidationErrorV>(e@),
            },
    {
        let ghost vals = str_views(pk_params@);
        let pk_indices = match &entity.primary_key {
            None => {
                return Err(ValidationError::NoPrimaryKey);
            },
            Some(pk) => pk,
        };
        if pk_params.len() != pk_indices.len() {
            return Err(ValidationError::KeyCountMismatch);
        }
        let n = pk_params.len();
        let mut params: Vec<Parameter> = Vec::new();
        proof {
            assert(pk_indices@.subrange(0, 0) =~= Seq::<usize>::empty());
            assert(vals.subrange(0, 0) =~= Seq::<Seq<char>>::empty());
            assert(params_v(params@) =~= Seq::<ParameterV>::empty());
        }
        let mut i: usize = 0;
        while i < n
            invariant
                entity@.wf(),
                entity@.primary_key == Some(pk_indices@),
                n == pk_params.len(),
                n == pk_indices@.len(),
                vals == str_views(pk_params@),
                0 <= i <= n,
                params@.len() == i,
                spec_pk_params(
                    entity@,
                    pk_indices@.subrange(0, i as int),
                    vals.subrange(0, i as int),
                ) == Ok::<Seq<ParameterV>, ValidationErrorV>(params_v(params@)),
            decreases n - i,
        {
            let pos = pk_indices[i];
            proof {
                assert((pk_indices@[i as int] as int) < entity@.columns.len());
                assert(entity@.columns.len() == entity.columns@.len());
            }
            let col = &entity.columns[pos];
            proof {
                assert(col@ == entity@.columns[pk_indices@[i as int] as int]);
                assert(vals[i as int] == pk_params@[i as int]@);
            }
            let value = pk_params[i].clone();
            let ghost prev_pk = pk_indices@.subrange(0, i as int);
            let ghost prev_vals = vals.subrange(0, i as int);
            let ghost cur_pk = pk_indices@.subrange(0, i + 1);
            let ghost cur_vals = vals.subrange(0, i + 1);
            proof {
                assert(cur_pk.drop_last() =~= prev_pk);
                assert(cur_vals.drop_last() =~= prev_vals);
                assert(cur_vals.last() == vals[i as int]);
                assert(cur_pk[cur_vals.len() - 1] == pk_indices@[i as int]);
            }
            match Parameter::parse(col, value) {
                Err(ce) => {
                    let err = ValidationError::Parameter {
                        value: pk_params[i].clone(),
                        column: col.name.clone(),
                        cause: ce,
                    };
                    proof {
                        assert(spec_pk_params(entity@, cur_pk, cur_vals) == Err::<
                            Seq<ParameterV>,
                            ValidationErrorV,
                        >(err@));
                        lemma_pk_params_err_propagates(entity@, pk_indices@, vals, i + 1);
                    }
                    return Err(err);
                },
                Ok(p) => {
                    let ghost prev_ps = params_v(params@);
                    let ghost pv = p@;
                    params.push(p);
                    proof {
                        assert(params_v(params@) =~= prev_ps.push(pv));
                        assert(pv == ParameterV { column: pv.column, value: pv.value });
                        assert(spec_pk_params(entity@, cur_pk, cur_vals) == Ok::<
                            Seq<ParameterV>,
                            ValidationErrorV,
                        >(params_v(params@)));
                    }
                },
            }
            i = i + 1;
        }
        proof {
            assert(pk_indices@.subrange(0, n as int) =~= pk_indices@);
            assert(vals.subrange(0, n as int) =~= vals);
        }
        let order: Vec<String> = Vec::new();
        let sql = generate_sql(schema_name, entity_name, &entity.columns, &params, &order, 1, None);
        let columns = clone_columns(&entity.columns);
        let q = DynamicQuery { sql, fetch_array_size: 1, columns, params };
        proof {
            assert(str_views(order@) =~= Seq::<Seq<char>>::empty());
            assert(cols_v(entity.columns@).map_values(|c: ColumnV| c.name)
                == entity@.column_names());
        }
        Ok(q)
    }
}

/// Views of a sequence of string pairs.
pub open spec fn pair_views(s: Seq<(String, String)>) -> Seq<(Seq<char>, Seq<char>)> {
    s.map_values(|p: (String, String)| (p.0@, p.1@))
}

/// Typed parameters for a filter request: each `(name, value)` pair must
/// name an existing column and its value must parse against that column, in
/// pair order; the first failure decides the error.
pub open spec fn spec_filter_params(e: EntityV, pairs: Seq<(Seq<char>, Seq<char>)>) -> Result<
    Seq<ParameterV>,
    ValidationErrorV,
>
    decreases pairs.len(),
{
    if pairs.len() == 0 {
        Ok(Seq::empty())
    } else {
        match spec_filter_params(e, pairs.drop_last()) {
            Err(x) => Err(x),
            Ok(ps) => {
                let name = pairs.last().0;
                let val = pairs.last().1;
                let ci = col_idx(e.columns, name);
                if ci == -1 {
                    Err(ValidationErrorV::UnknownColumn { column: name })
                } else {
                    let col = e.columns[ci];
                    match spec_parse(col, val) {
                        Err(ce) => Err(
                            ValidationErrorV::Parameter { value: val, column: name, cause: ce },
                        ),
                        Ok(v) => Ok(ps.push(ParameterV { column: col, value: v })),
                    }
                }
            },
        }
    }
}

/// The first order-by column that does not exist on the entity, if any.
pub open spec fn spec_order_error(e: EntityV, ename: Seq<char>, order: Seq<Seq<char>>) -> Option<
    ValidationErrorV,
>
    decreases order.len(),
{
    if order.len() == 0 {
        None
    } else {
        match spec_order_error(e, ename, order.drop_last()) {
            Some(x) => Some(x),
            None => if col_idx(e.columns, order.last()) == -1 {
                Some(ValidationErrorV::UnknownOrderColumn { column: order.last(), entity: ename })
            } else {
                None
            },
        }
    }
}

/// Outcome of a filter request: every filter pair must resolve and parse,
/// every order-by column must exist, the effective limit (default 25) must
/// lie in `1 ..= 100`, and an offset, when present, must be at least the
/// limit and a multiple of it; the emitted SQL constrains the filter columns
/// in pair order and pages by limit and offset, with the limit as fetch
/// size.
pub open spec fn spec_create_from_params(
    schema: Seq<char>,
    ename: Seq<char>,
    e: EntityV,
    pairs: Seq<(Seq<char>, Seq<char>)>,
    order: Seq<Seq<char>>,
    limit: Option<u32>,
    offset: Option<u32>,
) -> Result<DynamicQueryV, ValidationErrorV> {
    match spec_filter_params(e, pairs) {
        Err(x) => Err(x),
        Ok(ps) => match spec_order_error(e, ename, order) {
            Some(x) => Err(x),
            None => {
                let lim = match limit {
                    Some(l) => l,
                    None => 25u32,
                };
                if lim > 100 {
                    Err(ValidationErrorV::LimitTooLarge)
                } else if lim == 0 {
                    Err(ValidationErrorV::LimitZero)
                } else {
                    match offset {
                        Some(o) => if o < lim {
                            Err(ValidationErrorV::OffsetBelowLimit)
                        } else if o % lim != 0 {
                            Err(ValidationErrorV::OffsetNotAligned)
                        } else {
                            Ok(
                                DynamicQueryV {
                                    sql: spec_sql(
                                        schema,
                                        ename,
                                        e.column_names(),
                                        param_names(ps),
                                        order,
                                        lim,
                                        offset,
                                    ),
                                    fetch_array_size: lim,
                                    columns: e.columns,
                                    params: ps,
                                },
                            )
                        },
                        None => Ok(
                            DynamicQueryV {
                                sql: spec_sql(
                                    schema,
                                    ename,
                                    e.column_names(),
                                    param_names(ps),
                                    order,
                                    lim,
                                    offset,
                                ),
                                fetch_array_size: lim,
                                columns: e.columns,
                                params: ps,
                            },
                        ),
                    }
                }
            },
        },
    }
}

/// An error in a prefix of the filter pairs decides the whole parse.
proof fn lemma_filter_params_err_propagates(
    e: EntityV,
    pairs: Seq<(Seq<char>, Seq<char>)>,
    k: int,
)
    requires
        0 <= k <= pairs.len(),
        spec_filter_params(e, pairs.subrange(0, k)) is Err,
    ensures
        spec_filter_params(e, pairs) == spec_filter_params(e, pairs.subrange(0, k)),
    decreases pairs.len() - k,
{
    if k < pairs.len() {
        assert(pairs.subrange(0, k + 1).drop_last() =~= pairs.subrange(0, k));
        lemma_filter_params_err_propagates(e, pairs, k + 1);
    } else {
        assert(pairs.subrange(0, k) =~= pairs);
    }
}

/// A missing order-by column in a prefix decides the whole check.
proof fn lemma_order_err_propagates(e: EntityV, ename: Seq<char>, order: Seq<Seq<char>>, k: int)
    requires
        0 <= k <= order.len(),
        spec_order_error(e, ename, order.subrange(0, k)) is Some,
    ensures
        spec_order_error(e, ename, order) == spec_order_error(e, ename, order.subrange(0, k)),
    decreases order.len() - k,
{
    if k < order.len() {
        assert(order.subrange(0, k + 1).drop_last() =~= order.subrange(0, k));
        lemma_order_err_propagates(e, ename, order, k + 1);
    } else {
        assert(order.subrange(0, k) =~= order);
    }
}

impl DynamicQuery {
    /// Build a multi-row query that selects the entity's columns, constrains
    /// the filter columns by equality in pair order, optionally orders and
    /// pages the result, exactly as [`spec_create_from_params`] prescribes.
    pub fn create_from_params(
        schema_name: &str,
        entity_name: &str,
        entity: &Entity,
        parameters: Vec<(String, String)>,
        order: Vec<String>,
        limit: Option<u32>,
        offset: Option<u32>,
    ) -> (r: Result<DynamicQuery, ValidationError>)
        requires
            entity@.wf(),
        ensures
            match r {
                Ok(q) => spec_create_from_params(
                    schema_name@,
                    entity_name@,
                    entity@,
                    pair_views(parameters@),
                    str_views(order@),
                    limit,
                    offset,
                ) == Ok::<DynamicQueryV, ValidationErrorV>(q@),
                Err(e) => spec_create_from_params(
                    schema_name@,
                    entity_name@,
                    entity@,
                    pair_views(parameters@),
                    str_views(order@),
                    limit,
                    offset,
                ) == Err::<DynamicQueryV, ValidationErrorV>(e@),
            },
    {
        let ghost pairs = pair_views(parameters@);
        let ghost order_views = str_views(order@);
        let n = parameters.len();
        let mut params: Vec<Parameter> = Vec::new();
        proof {
            assert(pairs.subrange(0, 0) =~= Seq::<(Seq<char>, Seq<char>)>::empty());
            assert(params_v(params@) =~= Seq::<ParameterV>::empty());
        }
        let mut i: usize = 0;
        while i < n
            invariant
                entity@.wf(),
                n == parameters.len(),
                pairs == pair_views(parameters@),
                0 <= i <= n,
                params@.len() == i,
                spec_filter_params(entity@, pairs.subrange(0, i as int)) == Ok::<
                    Seq<ParameterV>,
                    ValidationErrorV,
                >(params_v(params@)),
            decreases n - i,
        {
            let ghost prev = pairs.subrange(0, i as int);
            let ghost cur = pairs.subrange(0, i + 1);
            proof {
                assert(cur.drop_last() =~= prev);
                assert(cur.last() == pairs[i as int]);
                assert(pairs[i as int] == (parameters@[i as int].0@, parameters@[i as int].1@));
            }
            let p = &parameters[i];
            match find_col_idx(&entity.columns, &p.0) {
                None => {
                    let err = ValidationError::UnknownColumn { column: p.0.clone() };
                    proof {
                        assert(spec_filter_params(entity@, cur) == Err::<
                            Seq<ParameterV>,
                            ValidationErrorV,
                        >(err@));
                        lemma_filter_params_err_propagates(entity@, pairs, i + 1);
                    }
                    return Err(err);
                },
                Some(ci) => {
                    let col = &entity.columns[ci];
                    proof {
                        assert(col@ == entity@.columns[col_idx(entity@.columns, pairs[i as int].0)]);
                    }
                    match Parameter::parse(col, p.1.clone()) {
                        Err(ce) => {
                            let err = ValidationError::Parameter {
                                value: p.1.clone(),
                                column: p.0.clone(),
                                cause: ce,
                            };
                            proof {
                                assert(spec_filter_params(entity@, cur) == Err::<
                                    Seq<ParameterV>,
                                    ValidationErrorV,
                                >(err@));
                                lemma_filter_params_err_propagates(entity@, pairs, i + 1);
                            }
                            return Err(err);
                        },
                        Ok(param) => {
                            let ghost prev_ps = params_v(params@);
                            let ghost pv = param@;
                            params.push(param);
                            proof {
                                assert(params_v(params@) =~= prev_ps.push(pv));
                                assert(spec_filter_params(entity@, cur) == Ok::<
                                    Seq<ParameterV>,
                                    ValidationErrorV,
                                >(params_v(params@)));
                            }
                        },
                    }
                },
            }
            i = i + 1;
        }
        proof {
            assert(pairs.subrange(0, n as int) =~= pairs);
        }
        let m = order.len();
        let mut i: usize = 0;
        while i < m
            invariant
                entity@.wf(),
                m == order.len(),
                order_views == str_views(order@),
                pairs == pair_views(parameters@),
                spec_filter_params(entity@, pairs) == Ok::<Seq<ParameterV>, ValidationErrorV>(
                    params_v(params@),
                ),
                0 <= i <= m,
                spec_order_error(entity@, entity_name@, order_views.subrange(0, i as int))
                    is None,
            decreases m - i,
        {
            let ghost prev = order_views.subrange(0, i as int);
            let ghost cur = order_views.subrange(0, i + 1);
            proof {
                assert(cur.drop_last() =~= prev);
                assert(cur.last() == order_views[i as int]);
                assert(order_views[i as int] == order@[i as int]@);
            }
            match find_col_idx(&entity.columns, &order[i]) {
                None => {
                    let err = ValidationError::UnknownOrderColumn {
                        column: order[i].clone(),
                        entity: String::from_str(entity_name),
                    };
                    proof {
                        assert(spec_order_error(entity@, entity_name@, cur) == Some(err@));
                        lemma_order_err_propagates(entity@, entity_name@, order_views, i + 1);
                    }
                    return Err(err);
                },
                Some(_) => {},
            }
            i = i + 1;
        }
        proof {
            assert(order_views.subrange(0, m as int) =~= order_views);
        }
        let lim: u32 = match limit {
            Some(l) => l,
            None => 25,
        };
        if lim > 100 {
            return Err(ValidationError::LimitTooLarge);
        }
        if lim == 0 {
            return Err(ValidationError::LimitZero);
        }
        if let Some(o) = offset {
            if o < lim {
                return Err(ValidationError::OffsetBelowLimit);
            }
            if o % lim != 0 {
                return Err(ValidationError::OffsetNotAligned);
            }
        }
        let sql = generate_sql(
            schema_name,
            entity_name,
            &entity.columns,
            &params,
            &order,
            lim,
            offset,
        );
        let columns = clone_columns(&entity.columns);
        let q = DynamicQuery { sql, fetch_array_size: lim, columns, params };
        proof {
            assert(cols_v(entity.columns@).map_values(|c: ColumnV| c.name)
                == entity@.column_names());
        }
        Ok(q)
    }
}

/// The keys of a sequence of filter pairs, in order.
pub open spec fn pair_keys(pairs: Seq<(Seq<char>, Seq<char>)>) -> Seq<Seq<char>> {
    pairs.map_values(|p: (Seq<char>, Seq<char>)| p.0)
}

/// For every valid by-primary-key request the bound-parameter list has
/// exactly one entry per primary-key column, in the catalog's primary-key
/// order: entry `i` binds to key column `i` and holds the parse of value
/// `i` against that column.
pub proof fn lemma_pk_parameter_alignment(e: EntityV, pk: Seq<usize>, vals: Seq<Seq<char>>)
    requires
        pk.len() == vals.len(),
        spec_pk_params(e, pk, vals) is Ok,
    ensures
        ({
            let ps = spec_pk_params(e, pk, vals)->Ok_0;
            &&& ps.len() == pk.len()
            &&& forall|i: int|
                0 <= i < pk.len() ==> (#[trigger] ps[i]).column == e.columns[pk[i] as int] && ps[i].value
                    == spec_parse(e.columns[pk[i] as int], vals[i])->Ok_0
        }),
    decreases vals.len(),
{
    if vals.len() > 0 {
        let pk0 = pk.drop_last();
        let vals0 = vals.drop_last();
        lemma_pk_parameter_alignment(e, pk0, vals0);
        let ps0 = spec_pk_params(e, pk0, vals0)->Ok_0;
        let ps = spec_pk_params(e, pk, vals)->Ok_0;
        assert(ps == ps0.push(ps.last()));
        assert(forall|i: int| 0 <= i < pk0.len() ==> pk0[i] == pk[i] && vals0[i] == vals[i]);
    }
}

/// For every valid filter request, each bound parameter binds to the first
/// catalog column bearing its request name and carries that column whole —
/// in particular its backend type tag equals the column's catalog type tag —
/// and its value is the parse of the request value against that column.
pub proof fn lemma_filter_parameter_tags(e: EntityV, pairs: Seq<(Seq<char>, Seq<char>)>)
    requires
        spec_filter_params(e, pairs) is Ok,
    ensures
        ({
            let ps = spec_filter_params(e, pairs)->Ok_0;
            &&& ps.len() == pairs.len()
            &&& forall|i: int|
                0 <= i < pairs.len() ==> {
                    let ci = col_idx(e.columns, pairs[i].0);
                    &&& ci != -1
                    &&& (#[trigger] ps[i]).column == e.columns[ci]
                    &&& ps[i].column.sql_type == e.columns[ci].sql_type
                    &&& ps[i].value == spec_parse(e.columns[ci], pairs[i].1)->Ok_0
                }
        }),
    decreases pairs.len(),
{
    if pairs.len() > 0 {
        let pairs0 = pairs.drop_last();
        lemma_filter_parameter_tags(e, pairs0);
        let ps0 = spec_filter_params(e, pairs0)->Ok_0;
        let ps = spec_filter_params(e, pairs)->Ok_0;
        assert(ps == ps0.push(ps.last()));
        assert(forall|i: int| 0 <= i < pairs0.len() ==> pairs0[i] == pairs[i]);
    }
}

/// For every by-primary-key request that validates, the bound-parameter
/// count equals the primary key's column count and the parameters follow
/// the catalog's primary-key column order.
pub proof fn lemma_pk_request_alignment(
    schema: Seq<char>,
    ename: Seq<char>,
    e: EntityV,
    vals: Seq<Seq<char>>,
)
    requires
        spec_create_from_pk(schema, ename, e, vals) is Ok,
    ensures
        ({
            let q = spec_create_from_pk(schema, ename, e, vals)->Ok_0;
            let pk = e.primary_key->Some_0;
            &&& e.primary_key is Some
            &&& q.params.len() == pk.len()
            &&& forall|i: int|
                0 <= i < pk.len() ==> (#[trigger] q.params[i]).column == e.columns[pk[i] as int]
        }),
{
    let pk = e.primary_key->Some_0;
    lemma_pk_parameter_alignment(e, pk, vals);
}

/// For every filter request that validates, each bound value's backend type
/// tag equals its column's catalog type tag.
pub proof fn lemma_filter_request_tags(
    schema: Seq<char>,
    ename: Seq<char>,
    e: EntityV,
    pairs: Seq<(Seq<char>, Seq<char>)>,
    order: Seq<Seq<char>>,
    limit: Option<u32>,
    offset: Option<u32>,
)
    requires
        spec_create_from_params(schema, ename, e, pairs, order, limit, offset) is Ok,
    ensures
        ({
            let q = spec_create_from_params(schema, ename, e, pairs, order, limit, offset)->Ok_0;
            &&& q.params.len() == pairs.len()
            &&& forall|i: int|
                0 <= i < pairs.len() ==> (#[trigger] q.params[i]).column.sql_type == e.columns[
                    col_idx(e.columns, pairs[i].0)].sql_type
        }),
{
    lemma_filter_parameter_tags(e, pairs);
}

/// Injection safety for by-primary-key requests: any two requests against
/// the same catalog entity that both validate emit identical SQL text,
/// whatever their values — values reach only the bound-parameter list.
pub proof fn lemma_pk_sql_independent_of_values(
    schema: Seq<char>,
    ename: Seq<char>,
    e: EntityV,
    vals1: Seq<Seq<char>>,
    vals2: Seq<Seq<char>>,
)
    requires
        spec_create_from_pk(schema, ename, e, vals1) is Ok,
        spec_create_from_pk(schema, ename, e, vals2) is Ok,
    ensures
        spec_create_from_pk(schema, ename, e, vals1)->Ok_0.sql == spec_create_from_pk(
            schema,
            ename,
            e,
            vals2,
        )->Ok_0.sql,
{
    let pk = e.primary_key->Some_0;
    let ps1 = spec_pk_params(e, pk, vals1)->Ok_0;
    let ps2 = spec_pk_params(e, pk, vals2)->Ok_0;
    lemma_pk_parameter_alignment(e, pk, vals1);
    lemma_pk_parameter_alignment(e, pk, vals2);
    assert(param_names(ps1) =~= param_names(ps2));
}

/// Injection safety for filter requests: two requests with the same filter
/// columns, ordering and paging that both validate emit identical SQL text,
/// whatever their values.
pub proof fn lemma_filter_sql_independent_of_values(
    schema: Seq<char>,
    ename: Seq<char>,
    e: EntityV,
    pairs1: Seq<(Seq<char>, Seq<char>)>,
    pairs2: Seq<(Seq<char>, Seq<char>)>,
    order: Seq<Seq<char>>,
    limit: Option<u32>,
    offset: Option<u32>,
)
    requires
        pair_keys(pairs1) == pair_keys(pairs2),
        spec_create_from_params(schema, ename, e, pairs1, order, limit, offset) is Ok,
        spec_create_from_params(schema, ename, e, pairs2, order, limit, offset) is Ok,
    ensures
        spec_create_from_params(schema, ename, e, pairs1, order, limit, offset)->Ok_0.sql
            == spec_create_from_params(schema, ename, e, pairs2, order, limit, offset)->Ok_0.sql,
{
    let ps1 = spec_filter_params(e, pairs1)->Ok_0;
    let ps2 = spec_filter_params(e, pairs2)->Ok_0;
    lemma_filter_parameter_tags(e, pairs1);
    lemma_filter_parameter_tags(e, pairs2);
    assert(pairs1.len() == pairs2.len()) by {
        assert(pair_keys(pairs1).len() == pairs1.len());
        assert(pair_keys(pairs2).len() == pairs2.len());
    }
    assert forall|i: int| 0 <= i < pairs1.len() implies pairs1[i].0 == pairs2[i].0 by {
        assert(pair_keys(pairs1)[i] == pairs1[i].0);
        assert(pair_keys(pairs2)[i] == pairs2[i].0);
    }
    assert(param_names(ps1) =~= param_names(ps2));
}

/// Pagination alignment: a filter request is rejected unless the effective
/// limit (default 25) lies in `1 ..= 100`; and when an offset is present it
/// is rejected unless the offset is at least the limit and a multiple of
/// it.
pub proof fn lemma_pagination(
    schema: Seq<char>,
    ename: Seq<char>,
    e: EntityV,
    pairs: Seq<(Seq<char>, Seq<char>)>,
    order: Seq<Seq<char>>,
    limit: Option<u32>,
    offset: Option<u32>,
)
    ensures
        ({
            let lim = match limit {
                Some(l) => l,
                None => 25u32,
            };
            let r = spec_create_from_params(schema, ename, e, pairs, order, limit, offset);
            &&& (r is Ok ==> 1 <= lim <= 100 && match offset {
                Some(o) => o >= lim && o % lim == 0,
                None => true,
            })
            &&& (!(1 <= lim <= 100) ==> r is Err)
            &&& (match offset {
                Some(o) => 1 <= lim <= 100 && (o < lim || o % lim != 0) ==> r is Err,
                None => true,
            })
        }),
{
}

} // verus!
