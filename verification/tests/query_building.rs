use dynquery::catalog::{MetaInfo, SqlType};
use dynquery::codec::{CodecError, Parameter, ParameterValue};
use dynquery::loader::{load, OraColumn, OraPrimaryKey, OraTable};
use dynquery::query::{DynamicQuery, ValidationError};
use dynquery::requests::{split_csv, table_query_by_params, table_query_by_pk, RequestError};

fn table_row(owner: &str, table: &str) -> OraTable {
    OraTable {
        owner: owner.to_string(),
        table_name: table.to_string(),
        table_type: "TABLE".to_string(),
        num_rows: None,
        temporary: "N".to_string(),
    }
}

fn column_row(
    owner: &str,
    table: &str,
    column: &str,
    data_type: &str,
    len: u16,
    precision: Option<u8>,
    scale: Option<i8>,
) -> OraColumn {
    OraColumn {
        owner: owner.to_string(),
        table_name: table.to_string(),
        column_name: column.to_string(),
        data_type: data_type.to_string(),
        data_length: len,
        data_precision: precision,
        data_scale: scale,
        nullable: "Y".to_string(),
    }
}

fn key_row(owner: &str, table: &str, column: &str) -> OraPrimaryKey {
    OraPrimaryKey {
        owner: owner.to_string(),
        table_name: table.to_string(),
        constraint_name: "PK".to_string(),
        column_name: column.to_string(),
    }
}

/// `hr.employees` with primary key `employee_id`, a two-byte integer.
fn hr_catalog() -> MetaInfo {
    let tables = vec![table_row("HR", "EMPLOYEES")];
    let columns = vec![
        column_row("HR", "EMPLOYEES", "EMPLOYEE_ID", "NUMBER", 22, Some(4), Some(0)),
        column_row("HR", "EMPLOYEES", "FIRST_NAME", "VARCHAR2", 20, None, None),
    ];
    let keys = vec![key_row("HR", "EMPLOYEES", "EMPLOYEE_ID")];
    load(&tables, &columns, &keys, &vec![]).expect("catalog loads")
}

/// `s.t` with composite primary key `(dept_id, emp_id)`.
fn composite_catalog() -> MetaInfo {
    let tables = vec![table_row("S", "T")];
    let columns = vec![
        column_row("S", "T", "DEPT_ID", "NUMBER", 22, Some(6), Some(0)),
        column_row("S", "T", "EMP_ID", "NUMBER", 22, Some(10), Some(0)),
    ];
    let keys = vec![key_row("S", "T", "DEPT_ID"), key_row("S", "T", "EMP_ID")];
    load(&tables, &columns, &keys, &vec![]).expect("catalog loads")
}

#[test]
fn pk_request_emits_placeholder_and_one_typed_parameter() {
    let mi = hr_catalog();
    let q = table_query_by_pk(&mi, "hr", "employees", "42").expect("builds");
    assert_eq!(q.sql, "SELECT employee_id,first_name FROM hr.employees WHERE employee_id = :1");
    assert_eq!(q.fetch_array_size, 1);
    assert_eq!(q.params.len(), 1);
    assert!(matches!(q.params[0].value, ParameterValue::Int16(42)));
    assert_eq!(q.params[0].column.name, "employee_id");
    assert_eq!(q.columns.len(), 2);
}

#[test]
fn composite_key_binds_parameters_in_key_order() {
    let mi = composite_catalog();
    let q = table_query_by_pk(&mi, "s", "t", "10,42").expect("builds");
    assert_eq!(q.sql, "SELECT dept_id,emp_id FROM s.t WHERE dept_id = :1 AND emp_id = :2");
    assert_eq!(q.params.len(), 2);
    assert!(matches!(q.params[0].value, ParameterValue::Int32(10)));
    assert!(matches!(q.params[1].value, ParameterValue::Int64(42)));
}

#[test]
fn composite_key_rejects_count_mismatch() {
    let mi = composite_catalog();
    let err = table_query_by_pk(&mi, "s", "t", "42").err().expect("rejected");
    assert!(matches!(err, RequestError::Invalid(ValidationError::KeyCountMismatch)));
}

#[test]
fn pk_request_without_primary_key_is_rejected() {
    let tables = vec![table_row("A", "T")];
    let columns = vec![column_row("A", "T", "ID", "NUMBER", 22, Some(4), Some(0))];
    let mi = load(&tables, &columns, &vec![], &vec![]).expect("loads");
    let err = table_query_by_pk(&mi, "a", "t", "1").err().expect("rejected");
    assert!(matches!(err, RequestError::Invalid(ValidationError::NoPrimaryKey)));
    match err {
        RequestError::Invalid(v) => assert_eq!(v.message(), "Primary key not exists"),
        _ => unreachable!(),
    }
}

#[test]
fn unknown_schema_and_entity_are_distinguished() {
    let mi = hr_catalog();
    assert!(matches!(
        table_query_by_pk(&mi, "nosuch", "employees", "1"),
        Err(RequestError::UnknownSchema)
    ));
    assert!(matches!(
        table_query_by_pk(&mi, "hr", "nosuch", "1"),
        Err(RequestError::UnknownEntity)
    ));
}

#[test]
fn unparsable_key_value_names_value_and_column() {
    let mi = hr_catalog();
    let err = table_query_by_pk(&mi, "hr", "employees", "abc").err().expect("rejected");
    match err {
        RequestError::Invalid(v) => {
            assert_eq!(
                v.message(),
                "Can not parse parameter value abc for column employee_id: invalid integer literal"
            );
        },
        _ => unreachable!(),
    }
}

#[test]
fn key_value_out_of_column_width_is_rejected() {
    let mi = hr_catalog();
    // employee_id is a two-byte integer; 40000 does not fit.
    let err = table_query_by_pk(&mi, "hr", "employees", "40000").err().expect("rejected");
    assert!(matches!(
        err,
        RequestError::Invalid(ValidationError::Parameter { cause: CodecError::InvalidValue, .. })
    ));
}

#[test]
fn filter_request_pages_and_orders() {
    let mi = hr_catalog();
    let q = table_query_by_params(
        &mi,
        "hr",
        "employees",
        "{\"employee_id\": \"42\"}",
        Some("first_name"),
        Some(30),
        Some(30),
    )
    .expect("builds");
    assert_eq!(
        q.sql,
        "SELECT employee_id,first_name FROM hr.employees WHERE employee_id = :1 \
         ORDER BY first_name OFFSET 30 ROWS FETCH NEXT 30 ROWS ONLY"
    );
    assert_eq!(q.fetch_array_size, 30);
    assert_eq!(q.params.len(), 1);
    assert!(matches!(q.params[0].value, ParameterValue::Int16(42)));
}

#[test]
fn filter_parameter_carries_catalog_type_tag() {
    let mi = hr_catalog();
    let q = table_query_by_params(&mi, "hr", "employees", "{\"employee_id\": \"7\"}", None, None, None)
        .expect("builds");
    let entity = mi.find_schema("hr").unwrap().find_entity("employees").unwrap();
    assert_eq!(q.params[0].column.sql_type, entity.columns[0].sql_type);
    assert_eq!(q.params[0].column.sql_type, SqlType::Number(4, 0));
}

#[test]
fn filter_defaults_limit_to_twenty_five() {
    let mi = hr_catalog();
    let q = table_query_by_params(&mi, "hr", "employees", "{}", None, None, None).expect("builds");
    assert_eq!(q.sql, "SELECT employee_id,first_name FROM hr.employees WHERE  FETCH NEXT 25 ROWS ONLY");
    assert_eq!(q.fetch_array_size, 25);
    assert_eq!(q.params.len(), 0);
}

#[test]
fn limit_of_one_emits_no_paging_clause() {
    let mi = hr_catalog();
    let q = table_query_by_params(&mi, "hr", "employees", "{}", None, Some(1), None).expect("builds");
    assert_eq!(q.sql, "SELECT employee_id,first_name FROM hr.employees WHERE ");
    assert_eq!(q.fetch_array_size, 1);
}

#[test]
fn pagination_invariants_are_enforced() {
    let mi = hr_catalog();
    assert!(table_query_by_params(&mi, "hr", "employees", "{}", None, Some(30), Some(30)).is_ok());
    assert!(matches!(
        table_query_by_params(&mi, "hr", "employees", "{}", None, Some(30), Some(45)),
        Err(RequestError::Invalid(ValidationError::OffsetNotAligned))
    ));
    assert!(matches!(
        table_query_by_params(&mi, "hr", "employees", "{}", None, Some(200), None),
        Err(RequestError::Invalid(ValidationError::LimitTooLarge))
    ));
    assert!(matches!(
        table_query_by_params(&mi, "hr", "employees", "{}", None, Some(0), None),
        Err(RequestError::Invalid(ValidationError::LimitZero))
    ));
    assert!(matches!(
        table_query_by_params(&mi, "hr", "employees", "{}", None, Some(30), Some(10)),
        Err(RequestError::Invalid(ValidationError::OffsetBelowLimit))
    ));
}

#[test]
fn unknown_filter_and_order_columns_are_rejected() {
    let mi = hr_catalog();
    let err =
        table_query_by_params(&mi, "hr", "employees", "{\"nosuch\": \"1\"}", None, None, None)
            .err()
            .expect("rejected");
    match err {
        RequestError::Invalid(v) => assert_eq!(v.message(), "Not found column nosuch"),
        _ => unreachable!(),
    }
    let err = table_query_by_params(&mi, "hr", "employees", "{}", Some("nosuch"), None, None)
        .err()
        .expect("rejected");
    match err {
        RequestError::Invalid(v) => {
            assert_eq!(v.message(), "Order column nosuch not found in table employees")
        },
        _ => unreachable!(),
    }
}

#[test]
fn malformed_filter_text_is_rejected() {
    let mi = hr_catalog();
    let err = table_query_by_params(&mi, "hr", "employees", "not json", None, None, None)
        .err()
        .expect("rejected");
    assert!(matches!(err, RequestError::MalformedFilter));
    assert_eq!(err.message(), "Invalid query format");
}

#[test]
fn sql_text_does_not_depend_on_key_values() {
    let mi = hr_catalog();
    let q1 = table_query_by_pk(&mi, "hr", "employees", "1").expect("builds");
    let q2 = table_query_by_pk(&mi, "hr", "employees", "30000").expect("builds");
    assert_eq!(q1.sql, q2.sql);
    // An attacker-shaped value never reaches the text: it fails the codec
    // instead of altering the statement.
    let err = table_query_by_pk(&mi, "hr", "employees", "1 OR 1=1").err().expect("rejected");
    assert!(matches!(err, RequestError::Invalid(ValidationError::Parameter { .. })));
}

#[test]
fn sql_text_does_not_depend_on_filter_values() {
    let mi = hr_catalog();
    let q1 =
        table_query_by_params(&mi, "hr", "employees", "{\"first_name\": \"x\"}", None, None, None)
            .expect("builds");
    let q2 = table_query_by_params(
        &mi,
        "hr",
        "employees",
        "{\"first_name\": \"y'); DROP TABLE employees;--\"}",
        None,
        None,
        None,
    )
    .expect("builds");
    assert_eq!(q1.sql, q2.sql);
    // The hostile value travels only as a bound parameter.
    assert!(matches!(
        &q2.params[0].value,
        ParameterValue::Varchar(v) if v == "y'); DROP TABLE employees;--"
    ));
}

#[test]
fn string_key_values_pass_through_the_codec() {
    let tables = vec![table_row("A", "T")];
    let columns = vec![column_row("A", "T", "CODE", "VARCHAR2", 10, None, None)];
    let keys = vec![key_row("A", "T", "CODE")];
    let mi = load(&tables, &columns, &keys, &vec![]).expect("loads");
    let q = table_query_by_pk(&mi, "a", "t", "ab-7").expect("builds");
    assert!(matches!(&q.params[0].value, ParameterValue::Varchar(v) if v == "ab-7"));
}

#[test]
fn unsupported_parameter_types_are_configuration_errors() {
    let mi = hr_catalog();
    let entity = mi.find_schema("hr").unwrap().find_entity("employees").unwrap();
    // salary-like column: NUMBER with nonzero scale cannot take a parameter
    let tables = vec![table_row("A", "T")];
    let columns = vec![column_row("A", "T", "RATE", "NUMBER", 22, Some(10), Some(2))];
    let keys = vec![key_row("A", "T", "RATE")];
    let mi2 = load(&tables, &columns, &keys, &vec![]).expect("loads");
    let err = table_query_by_pk(&mi2, "a", "t", "1.5").err().expect("rejected");
    assert!(matches!(
        err,
        RequestError::Invalid(ValidationError::Parameter { cause: CodecError::UnsupportedType, .. })
    ));
    // direct codec call: a width no integer type covers
    let mut odd = entity.columns[0].clone();
    odd.col_size = 3;
    let e = Parameter::parse(&odd, "1".to_string()).err().expect("rejected");
    assert!(matches!(e, CodecError::UnsupportedSize));
    assert_eq!(e.message(), "Not supported size for Number");
}

#[test]
fn generate_sql_is_reachable_directly() {
    let mi = hr_catalog();
    let entity = mi.find_schema("hr").unwrap().find_entity("employees").unwrap();
    let order = vec!["employee_id".to_string()];
    let sql = DynamicQuery::create_from_params(
        "hr",
        "employees",
        entity,
        Vec::new(),
        order,
        Some(50),
        None,
    )
    .expect("builds")
    .sql;

    assert_eq!(
        sql,
        "SELECT employee_id,first_name FROM hr.employees WHERE  \
         ORDER BY employee_id FETCH NEXT 50 ROWS ONLY"
    );
}

#[test]
fn split_csv_matches_request_shape() {
    let parts = split_csv("10,42");
    assert_eq!(parts, vec!["10".to_string(), "42".to_string()]);
    assert_eq!(split_csv(""), vec!["".to_string()]);
    assert_eq!(split_csv("a,,b"), vec!["a".to_string(), "".to_string(), "b".to_string()]);
    assert_eq!(split_csv("x,"), vec!["x".to_string(), "".to_string()]);
}

#[test]
fn empty_order_text_names_an_empty_column() {
    let mi = hr_catalog();
    let err = table_query_by_params(&mi, "hr", "employees", "{}", Some(""), None, None)
        .err()
        .expect("rejected");
    match err {
        RequestError::Invalid(v) => {
            assert_eq!(v.message(), "Order column  not found in table employees")
        },
        _ => unreachable!(),
    }
}
