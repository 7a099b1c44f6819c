use rust_db::error::DbError;
use rust_db::schema::{Column, Schema};
use rust_db::value::{DataType, Value};

fn users() -> Schema {
    Schema::new(vec![
        Column::new("id", DataType::Int),
        Column::new("name", DataType::Text),
        Column::new("score", DataType::Float),
        Column::new("active", DataType::Bool),
    ])
    .unwrap()
}

#[test]
fn rejects_empty_schema() {
    let result = Schema::new(vec![]);
    assert!(matches!(result, Err(DbError::EmptySchema)));
}

#[test]
fn rejects_duplicate_names_case_insensitive() {
    let result = Schema::new(vec![
        Column::new("id", DataType::Int),
        Column::new("ID", DataType::Text),
    ]);
    assert!(matches!(result, Err(DbError::DuplicateColumn { name }) if name == "ID"));
}

#[test]
fn looks_up_col_by_name() {
    let u = users();

    assert_eq!(u.column_index("name"), Some(1));
    assert_eq!(u.column_index("NAME"), Some(1));
    assert_eq!(u.column_index("test"), None);
}

#[test]
fn resolve_reports_missing_cols() {
    let us = users();
    assert_eq!(
        us.resolve("test").unwrap_err(),
        DbError::NoSuchColumn {
            name: "test".to_string()
        }
    );
}

#[test]
fn accepts_well_formed_row() {
    let u = users();
    let row = vec![
        Value::Int(1),
        Value::Text("Wesley".into()),
        Value::Float(99.9f64.to_bits()),
        Value::Bool(true),
    ];
    assert!(u.validate_row(&row).is_ok());
}

#[test]
fn null_is_allowed() {
    let u = users();
    let row = vec![Value::Null, Value::Null, Value::Null, Value::Null];
    assert!(u.validate_row(&row).is_ok());
}

#[test]
fn rejects_wrong_num_vals() {
    let u = users();
    let row = vec![Value::Int(1)];
    assert_eq!(
        u.validate_row(&row).unwrap_err(),
        DbError::ArityMismatch {
            expected: 4,
            got: 1
        }
    );
}

#[test]
fn rejects_wrong_type() {
    let u = users();
    let row = vec![
        Value::Int(1),
        Value::Text("Wesley".into()),
        Value::Int(100),
        Value::Bool(false),
    ];

    assert_eq!(
        u.validate_row(&row).unwrap_err(),
        DbError::TypeMismatch {
            column: "score".to_string(),
            expected: DataType::Float,
            got: Some(DataType::Int)
        }
    )
}

#[test]
fn duplicate_reported_is_first_repeating_column() {
    let result = Schema::new(vec![
        Column::new("a", DataType::Int),
        Column::new("b", DataType::Int),
        Column::new("B", DataType::Int),
        Column::new("A", DataType::Int),
    ]);
    assert_eq!(result.unwrap_err(), DbError::DuplicateColumn { name: "B".to_string() });
}

#[test]
fn column_accessors() {
    let u = users();
    assert_eq!(u.len(), 4);
    assert!(!u.is_empty());
    assert_eq!(u.columns().len(), 4);
    assert_eq!(u.column(2).unwrap().name(), "score");
    assert_eq!(u.column(2).unwrap().data_type(), DataType::Float);
    assert!(u.column(4).is_none());
    assert_eq!(u.column_by_name("ACTIVE").unwrap().name(), "active");
    assert!(u.column_by_name("missing").is_none());
    assert_eq!(u.resolve("Score"), Ok(2));
}

#[test]
fn column_accepts_its_type_and_null() {
    let c = Column::new("n", DataType::Int);
    assert!(c.accepts(&Value::Int(5)));
    assert!(c.accepts(&Value::Null));
    assert!(!c.accepts(&Value::Text("5".into())));
}

#[test]
fn first_misfit_is_reported() {
    let u = users();
    let row = vec![
        Value::Int(1),
        Value::Bool(true),
        Value::Int(100),
        Value::Bool(false),
    ];
    assert_eq!(
        u.validate_row(&row).unwrap_err(),
        DbError::TypeMismatch {
            column: "name".to_string(),
            expected: DataType::Text,
            got: Some(DataType::Bool)
        }
    );
}

#[test]
fn non_ascii_names_fold_only_ascii() {
    let s = Schema::new(vec![
        Column::new("Ärger", DataType::Int),
        Column::new("ärger", DataType::Int),
    ]);
    assert!(s.is_ok());
    let s = s.unwrap();
    assert_eq!(s.column_index("ÄRGER"), Some(0));
    assert_eq!(s.column_index("äRGER"), Some(1));
}
