use rust_db::error::DbError;
use rust_db::value::DataType;

#[test]
fn messages_name_what_went_wrong() {
    assert_eq!(
        DbError::DuplicateColumn { name: "id".into() }.to_string(),
        "Duplicate column name: `id`"
    );
    assert_eq!(DbError::EmptySchema.to_string(), "A table must have at least one column");
    assert_eq!(
        DbError::ArityMismatch { expected: 4, got: 1 }.to_string(),
        "Expected 4 value(s), got 1"
    );
    assert_eq!(
        DbError::ArityMismatch { expected: 10, got: 123 }.to_string(),
        "Expected 10 value(s), got 123"
    );
    assert_eq!(
        DbError::TypeMismatch {
            column: "score".into(),
            expected: DataType::Float,
            got: Some(DataType::Int)
        }
        .to_string(),
        "column `score` expects FLOAT, got INT"
    );
    assert_eq!(
        DbError::TypeMismatch {
            column: "name".into(),
            expected: DataType::Text,
            got: None
        }
        .to_string(),
        "column `name` expects TEXT, got NULL"
    );
    assert_eq!(
        DbError::NoSuchColumn { name: "x".into() }.to_string(),
        "no such column `x`"
    );
    assert_eq!(
        DbError::NoSuchTable { name: "t".into() }.to_string(),
        "no such table `t`"
    );
    assert_eq!(
        DbError::TableAlreadyExists { name: "t".into() }.to_string(),
        "table `t` already exists"
    );
}
