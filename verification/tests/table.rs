use rust_db::error::DbError;
use rust_db::schema::{Column, Schema};
use rust_db::table::Table;
use rust_db::value::{DataType, Value};

fn users() -> Table {
    let schema = Schema::new(vec![
        Column::new("id", DataType::Int),
        Column::new("name", DataType::Text),
        Column::new("is_active", DataType::Bool),
    ])
    .unwrap();
    Table::new("users", schema)
}

fn seed() -> Table {
    let mut u = users();
    u.insert(vec![1.into(), "ada".into(), true.into()]).unwrap();
    u.insert(vec![2.into(), "caleb".into(), false.into()])
        .unwrap();
    u.insert(vec![3.into(), "hannah".into(), true.into()])
        .unwrap();
    u
}

#[test]
fn insert_returns_sequential_ids() {
    let mut u = users();
    assert_eq!(u.insert(vec![1.into(), "caleb".into(), true.into()]), Ok(0));
    assert_eq!(u.insert(vec![2.into(), "zoe".into(), false.into()]), Ok(1));
    assert_eq!(u.len(), 2);
}

#[test]
fn insert_validates_against_schema() {
    let mut u = users();
    let err = u.insert(vec![1.into(), 2.into(), true.into()]).unwrap_err();
    assert_eq!(
        err,
        DbError::TypeMismatch {
            column: "name".to_string(),
            expected: DataType::Text,
            got: Some(DataType::Int)
        }
    );
    assert_eq!(u.len(), 0);
    assert_eq!(u.slot_count(), 0)
}

#[test]
fn delete_keeps_later_ids_stable() {
    let mut u = seed();
    assert!(u.delete(1));

    assert_eq!(u.get(2).unwrap()[1], Value::Text("hannah".into()));
    assert!(u.get(1).is_none());
}

#[test]
fn delete_is_idempotent() {
    let mut u = seed();
    assert!(u.delete(1));
    assert!(!u.delete(1));
    assert!(!u.delete(99));
    assert_eq!(u.len(), 2);
}

#[test]
fn len_counts_live_rows_not_slots() {
    let mut u = seed();
    u.delete(1);
    assert_eq!(u.len(), 2);
    assert_eq!(u.slot_count(), 3);
}

#[test]
fn iteration_skips_tomb_stones() {
    let mut u = seed();
    u.delete(1);

    let names: Vec<&str> = u.iter().into_iter().map(|r| r[1].as_text().unwrap()).collect();
    assert_eq!(names, vec!["ada", "hannah"]);

    let ids: Vec<usize> = u.iter_with_ids().into_iter().map(|(id, _)| id).collect();
    assert_eq!(ids, vec![0, 2]);
}

#[test]
fn update_performs_modification_in_place() {
    let mut u = seed();
    assert_eq!(
        u.update(1, vec![1.into(), "jonny".into(), true.into()]),
        Ok(true)
    );
}

#[test]
fn update_replaces_only_its_row() {
    let mut u = seed();
    assert_eq!(u.update(1, vec![9.into(), "jonny".into(), Value::Null]), Ok(true));
    assert_eq!(u.get(1).unwrap()[1], Value::Text("jonny".into()));
    assert_eq!(u.get(1).unwrap()[2], Value::Null);
    assert_eq!(u.get(0).unwrap()[1], Value::Text("ada".into()));
    assert_eq!(u.get(2).unwrap()[1], Value::Text("hannah".into()));
    assert_eq!(u.len(), 3);
    assert_eq!(u.slot_count(), 3);
}

#[test]
fn update_of_missing_or_deleted_row_changes_nothing() {
    let mut u = seed();
    u.delete(0);
    assert_eq!(u.update(0, vec![1.into(), "x".into(), true.into()]), Ok(false));
    assert_eq!(u.update(7, vec![1.into(), "x".into(), true.into()]), Ok(false));
    assert!(u.get(0).is_none());
    assert_eq!(u.len(), 2);
}

#[test]
fn update_is_checked_before_the_id() {
    let mut u = seed();
    assert_eq!(
        u.update(99, vec![1.into()]),
        Err(DbError::ArityMismatch { expected: 3, got: 1 })
    );
    assert_eq!(
        u.update(0, vec![Value::Null, Value::Null, 5.into()]),
        Err(DbError::TypeMismatch {
            column: "is_active".to_string(),
            expected: DataType::Bool,
            got: Some(DataType::Int)
        })
    );
    assert_eq!(u.get(0).unwrap()[1], Value::Text("ada".into()));
}

#[test]
fn compact_drops_tombstones_and_renumbers() {
    let mut u = seed();
    u.delete(0);
    u.delete(2);
    u.compact();
    assert_eq!(u.len(), 1);
    assert_eq!(u.slot_count(), 1);
    assert_eq!(u.get(0).unwrap()[1], Value::Text("caleb".into()));
    let ids: Vec<usize> = u.iter_with_ids().into_iter().map(|(id, _)| id).collect();
    assert_eq!(ids, vec![0]);
    assert_eq!(u.insert(vec![4.into(), "dora".into(), true.into()]), Ok(1));
}

#[test]
fn compact_of_a_table_without_tombstones_keeps_it() {
    let mut u = seed();
    u.compact();
    assert_eq!(u.len(), 3);
    assert_eq!(u.slot_count(), 3);
    let names: Vec<&str> = u.iter().into_iter().map(|r| r[1].as_text().unwrap()).collect();
    assert_eq!(names, vec!["ada", "caleb", "hannah"]);
}

#[test]
fn table_and_row_accessors() {
    let u = seed();
    assert_eq!(u.name(), "users");
    assert_eq!(u.schema().len(), 3);
    assert!(!u.is_empty());
    assert!(users().is_empty());
    let row = u.get(0).unwrap();
    assert_eq!(row.len(), 3);
    assert!(!row.is_empty());
    assert_eq!(row.values().len(), 3);
    assert_eq!(row.get(0), Some(&Value::Int(1)));
    assert!(row.get(3).is_none());
    assert!(u.get(3).is_none());
}

#[test]
fn insert_of_wrong_arity_is_refused() {
    let mut u = users();
    assert_eq!(
        u.insert(vec![1.into(), "a".into()]),
        Err(DbError::ArityMismatch { expected: 3, got: 2 })
    );
    assert_eq!(u.slot_count(), 0);
}

#[test]
fn ids_are_not_reused_after_delete() {
    let mut u = seed();
    u.delete(2);
    assert_eq!(u.insert(vec![4.into(), "dora".into(), true.into()]), Ok(3));
    assert_eq!(u.len(), 3);
    assert_eq!(u.slot_count(), 4);
}

#[test]
fn a_cloned_table_keeps_rows_and_ids() {
    let mut u = seed();
    u.delete(1);
    let mut c = u.clone();
    assert_eq!(c.len(), 2);
    assert_eq!(c.slot_count(), 3);
    assert_eq!(c.get(2).unwrap()[1], Value::Text("hannah".into()));
    assert!(c.get(1).is_none());
    assert_eq!(c.insert(vec![4.into(), "dora".into(), true.into()]), Ok(3));
    assert_eq!(u.slot_count(), 3);
    let r = u.get(0).unwrap().clone();
    assert_eq!(r[1], Value::Text("ada".into()));
}
