use dynquery::catalog::{ColumnType, EntityType, MetaInfo, SqlType};
use dynquery::loader::{
    load, load_available_schemas, OraColumn, OraIndex, OraPrimaryKey, OraTable, OthersConfig,
};
use dynquery::meta::column_meta;
use dynquery::security::{Authorized, SecurityContext};

fn table_row(owner: &str, table: &str, kind: &str, temporary: &str) -> OraTable {
    OraTable {
        owner: owner.to_string(),
        table_name: table.to_string(),
        table_type: kind.to_string(),
        num_rows: Some(10),
        temporary: temporary.to_string(),
    }
}

fn column_row(
    owner: &str,
    table: &str,
    column: &str,
    data_type: &str,
    len: u16,
    precision: Option<u8>,
    scale: Option<i8>,
    nullable: &str,
) -> OraColumn {
    OraColumn {
        owner: owner.to_string(),
        table_name: table.to_string(),
        column_name: column.to_string(),
        data_type: data_type.to_string(),
        data_length: len,
        data_precision: precision,
        data_scale: scale,
        nullable: nullable.to_string(),
    }
}

fn key_row(owner: &str, table: &str, constraint: &str, column: &str) -> OraPrimaryKey {
    OraPrimaryKey {
        owner: owner.to_string(),
        table_name: table.to_string(),
        constraint_name: constraint.to_string(),
        column_name: column.to_string(),
    }
}

fn index_row(
    owner: &str,
    table: &str,
    index: &str,
    uniqueness: &str,
    column: &str,
    descend: &str,
) -> OraIndex {
    OraIndex {
        owner: owner.to_string(),
        table_name: table.to_string(),
        index_name: index.to_string(),
        uniqueness: uniqueness.to_string(),
        column_name: column.to_string(),
        descend: descend.to_string(),
    }
}

fn hr_catalog() -> MetaInfo {
    let tables = vec![table_row("HR", "EMPLOYEES", "TABLE", "N")];
    let columns = vec![
        column_row("HR", "EMPLOYEES", "EMPLOYEE_ID", "NUMBER", 22, Some(4), Some(0), "N"),
        column_row("HR", "EMPLOYEES", "FIRST_NAME", "VARCHAR2", 20, None, None, "Y"),
        column_row("HR", "EMPLOYEES", "SALARY", "NUMBER", 22, Some(10), Some(2), "Y"),
        column_row("HR", "EMPLOYEES", "HIRED", "DATE", 7, None, None, "Y"),
        column_row("HR", "EMPLOYEES", "PHOTO", "BLOB", 4000, None, None, "Y"),
    ];
    let keys = vec![key_row("HR", "EMPLOYEES", "PK_EMP", "EMPLOYEE_ID")];
    let indexes = vec![
        index_row("HR", "EMPLOYEES", "IDX_NAME", "NONUNIQUE", "FIRST_NAME", "ASC"),
        index_row("HR", "EMPLOYEES", "IDX_NAME", "NONUNIQUE", "EMPLOYEE_ID", "DESC"),
    ];
    load(&tables, &columns, &keys, &indexes).expect("catalog loads")
}

#[test]
fn names_are_normalized_to_lowercase() {
    let mi = hr_catalog();
    assert!(mi.find_schema("hr").is_some());
    assert!(mi.find_schema("HR").is_none());
    let schema = mi.find_schema("hr").unwrap();
    assert!(schema.find_entity("employees").is_some());
    assert!(schema.find_entity("EMPLOYEES").is_none());
}

#[test]
fn entity_kinds_map_and_unknown_kind_is_fatal() {
    let tables = vec![
        table_row("A", "T1", "TABLE", "N"),
        table_row("A", "T2", "TABLE", "Y"),
        table_row("A", "V1", "VIEW", "N"),
    ];
    let mi = load(&tables, &vec![], &vec![], &vec![]).expect("loads");
    let schema = mi.find_schema("a").unwrap();
    assert_eq!(schema.find_entity("t1").unwrap().entity_type, EntityType::Table);
    assert_eq!(schema.find_entity("t2").unwrap().entity_type, EntityType::Temporary);
    assert_eq!(schema.find_entity("v1").unwrap().entity_type, EntityType::View);

    let bad = vec![table_row("A", "S1", "SEQUENCE", "N")];
    let err = load(&bad, &vec![], &vec![], &vec![]).err().expect("fatal");
    assert_eq!(err.message(), "unspecified entity type: SEQUENCE");
}

#[test]
fn column_type_inference_follows_native_descriptors() {
    let mi = hr_catalog();
    let entity = mi.find_schema("hr").unwrap().find_entity("employees").unwrap();
    let cols = &entity.columns;
    assert_eq!(cols.len(), 5);

    assert_eq!(cols[0].name, "employee_id");
    assert_eq!(cols[0].col_type, ColumnType::Integer);
    assert_eq!(cols[0].col_size, 2);
    assert_eq!(cols[0].sql_type, SqlType::Number(4, 0));
    assert!(!cols[0].nullable);

    assert_eq!(cols[1].col_type, ColumnType::String);
    assert_eq!(cols[1].col_size, 20);
    assert_eq!(cols[1].sql_type, SqlType::Varchar2(20));
    assert!(cols[1].nullable);

    assert_eq!(cols[2].col_type, ColumnType::Number);
    assert_eq!(cols[2].col_size, 8);
    assert_eq!(cols[2].sql_type, SqlType::Number(10, 2));

    assert_eq!(cols[3].col_type, ColumnType::DateTime);
    assert_eq!(cols[3].col_size, 8);
    assert_eq!(cols[3].sql_type, SqlType::Date);

    assert_eq!(cols[4].col_type, ColumnType::Unsupported);
    assert_eq!(cols[4].col_size, 0);
    assert_eq!(cols[4].sql_type, SqlType::UInt64);
}

#[test]
fn number_precision_decides_integer_width() {
    let tables = vec![table_row("A", "T", "TABLE", "N")];
    let columns = vec![
        column_row("A", "T", "P0", "NUMBER", 22, None, None, "N"),
        column_row("A", "T", "P1", "NUMBER", 22, Some(1), Some(0), "N"),
        column_row("A", "T", "P4", "NUMBER", 22, Some(4), Some(0), "N"),
        column_row("A", "T", "P5", "NUMBER", 22, Some(5), Some(0), "N"),
        column_row("A", "T", "P7", "NUMBER", 22, Some(7), Some(0), "N"),
        column_row("A", "T", "P8", "NUMBER", 22, Some(8), Some(0), "N"),
        column_row("A", "T", "S2", "NUMBER", 22, Some(2), Some(1), "N"),
        column_row("A", "T", "LONGTEXT", "LONG", 0, None, None, "N"),
    ];
    let mi = load(&tables, &columns, &vec![], &vec![]).expect("loads");
    let entity = mi.find_schema("a").unwrap().find_entity("t").unwrap();
    let widths: Vec<(ColumnType, u16)> =
        entity.columns.iter().map(|c| (c.col_type, c.col_size)).collect();
    assert_eq!(widths[0], (ColumnType::Integer, 8));
    assert_eq!(widths[1], (ColumnType::Integer, 2));
    assert_eq!(widths[2], (ColumnType::Integer, 2));
    assert_eq!(widths[3], (ColumnType::Integer, 4));
    assert_eq!(widths[4], (ColumnType::Integer, 4));
    assert_eq!(widths[5], (ColumnType::Integer, 8));
    assert_eq!(widths[6], (ColumnType::Number, 8));
    assert_eq!(widths[7], (ColumnType::String, 4096));
}

#[test]
fn primary_key_positions_follow_constraint_order() {
    let tables = vec![table_row("A", "T", "TABLE", "N")];
    let columns = vec![
        column_row("A", "T", "DEPT_ID", "NUMBER", 22, Some(4), Some(0), "N"),
        column_row("A", "T", "EMP_ID", "NUMBER", 22, Some(4), Some(0), "N"),
        column_row("A", "T", "NOTE", "VARCHAR2", 10, None, None, "Y"),
    ];
    let keys = vec![
        key_row("A", "T", "PK_T", "DEPT_ID"),
        key_row("A", "T", "PK_T", "EMP_ID"),
    ];
    let mi = load(&tables, &columns, &keys, &vec![]).expect("loads");
    let entity = mi.find_schema("a").unwrap().find_entity("t").unwrap();
    assert_eq!(entity.primary_key.as_ref().unwrap(), &vec![0usize, 1usize]);
}

#[test]
fn unresolved_key_column_is_dropped_silently() {
    let tables = vec![table_row("A", "T", "TABLE", "N")];
    let columns = vec![column_row("A", "T", "ID", "NUMBER", 22, Some(4), Some(0), "N")];
    let keys = vec![
        key_row("A", "T", "PK_T", "MISSING"),
        key_row("A", "T", "PK_T", "ID"),
    ];
    let mi = load(&tables, &columns, &keys, &vec![]).expect("loads");
    let entity = mi.find_schema("a").unwrap().find_entity("t").unwrap();
    assert_eq!(entity.primary_key.as_ref().unwrap(), &vec![0usize]);
}

#[test]
fn rows_for_unknown_schema_or_entity_are_dropped() {
    let tables = vec![table_row("A", "T", "TABLE", "N")];
    let columns = vec![
        column_row("B", "T", "X", "NUMBER", 22, Some(4), Some(0), "N"),
        column_row("A", "OTHER", "X", "NUMBER", 22, Some(4), Some(0), "N"),
        column_row("A", "T", "ID", "NUMBER", 22, Some(4), Some(0), "N"),
    ];
    let keys = vec![key_row("B", "T", "PK", "ID")];
    let mi = load(&tables, &columns, &keys, &vec![]).expect("loads");
    assert!(mi.find_schema("b").is_none());
    let entity = mi.find_schema("a").unwrap().find_entity("t").unwrap();
    assert_eq!(entity.columns.len(), 1);
    assert!(entity.primary_key.is_none());
}

#[test]
fn indexes_resolve_columns_and_directions() {
    let mi = hr_catalog();
    let entity = mi.find_schema("hr").unwrap().find_entity("employees").unwrap();
    assert_eq!(entity.indexes.len(), 1);
    let idx = &entity.indexes[0];
    assert!(!idx.unique);
    assert_eq!(idx.columns.len(), 2);
    assert_eq!(idx.columns[0].column_index, 1);
    assert!(!idx.columns[0].desc);
    assert_eq!(idx.columns[1].column_index, 0);
    assert!(idx.columns[1].desc);
}

#[test]
fn index_without_usable_columns_is_discarded() {
    let tables = vec![table_row("A", "T", "TABLE", "N")];
    let columns = vec![column_row("A", "T", "ID", "NUMBER", 22, Some(4), Some(0), "N")];
    let indexes = vec![
        index_row("A", "T", "IDX_BAD", "UNIQUE", "MISSING", "ASC"),
        index_row("A", "T", "IDX_OK", "UNIQUE", "ID", "ASC"),
    ];
    let mi = load(&tables, &columns, &vec![], &indexes).expect("loads");
    let entity = mi.find_schema("a").unwrap().find_entity("t").unwrap();
    assert_eq!(entity.indexes.len(), 1);
    assert!(entity.indexes[0].unique);
    assert_eq!(entity.indexes[0].columns.len(), 1);
}

#[test]
fn schema_names_lists_all_loaded_schemas() {
    let tables = vec![
        table_row("HR", "EMPLOYEES", "TABLE", "N"),
        table_row("SALES", "ORDERS", "TABLE", "N"),
    ];
    let mi = load(&tables, &vec![], &vec![], &vec![]).expect("loads");
    let mut names = mi.schema_names();
    names.sort();
    assert_eq!(names, vec!["hr".to_string(), "sales".to_string()]);
}

#[test]
fn available_schemas_quotes_and_excludes() {
    let owners = vec!["ALICE".to_string(), "SYSTEM".to_string(), "BOB".to_string()];
    let others = Some(OthersConfig { excludes: vec!["SYSTEM".to_string()] });
    assert_eq!(load_available_schemas(&owners, &others), "'ALICE','BOB'");
    assert_eq!(load_available_schemas(&owners, &None), "'ALICE','SYSTEM','BOB'");
    assert_eq!(load_available_schemas(&vec![], &None), "");
}

#[test]
fn column_meta_marks_primary_key_members() {
    let mi = hr_catalog();
    let entity = mi.find_schema("hr").unwrap().find_entity("employees").unwrap();
    let metas = column_meta(entity);
    assert_eq!(metas.len(), 5);
    assert_eq!(metas[0].name, "employee_id");
    assert!(metas[0].is_pk);
    assert!(!metas[1].is_pk);
    assert_eq!(metas[1].col_type, ColumnType::String);
    assert!(metas[1].nullable);
}

#[test]
fn authorization_checks_group_membership() {
    let ctx = SecurityContext::new(7, vec!["BASE_ACCESS".to_string()]);
    let dev = SecurityContext::new(8, vec!["DEVELOPER".to_string(), "BASE_ACCESS".to_string()]);
    assert!(Authorized::all().authorizes(Some(&ctx)));
    assert!(!Authorized::developers().authorizes(Some(&ctx)));
    assert!(Authorized::developers().authorizes(Some(&dev)));
    assert!(!Authorized::all().authorizes(None));
    assert!(ctx.has_group("BASE_ACCESS"));
    assert!(!ctx.has_group("DEVELOPER"));
}

#[test]
fn an_entity_seen_twice_is_replaced() {
    let tables = vec![
        table_row("A", "T", "TABLE", "N"),
        table_row("A", "T", "VIEW", "N"),
    ];
    let mi = load(&tables, &vec![], &vec![], &vec![]).expect("loads");
    let schema = mi.find_schema("a").unwrap();
    assert_eq!(schema.find_entity("t").unwrap().entity_type, EntityType::View);
    assert_eq!(schema.entities_iter().len(), 1);
}
