use rust_db::database::Database;
use rust_db::error::DbError;
use rust_db::schema::{Column, Schema};
use rust_db::value::DataType;

pub fn users_schema() -> Schema {
    Schema::new(vec![
        Column::new("id", DataType::Int),
        Column::new("name", DataType::Text),
        Column::new("email", DataType::Text),
    ])
    .unwrap()
}

fn db() -> Database {
    let mut db = Database::new();
    db.create_table("users", users_schema()).unwrap();
    db
}

#[test]
fn creates_and_finds_table() {
    let db = db();
    assert_eq!(db.len(), 1);
    assert!(db.contains_table("users"));
    assert_eq!(db.get("users").unwrap().name(), "users");
}

#[test]
fn table_names_are_case_insensitive() {
    let db = db();
    assert!(db.contains_table("users"));
    assert!(db.contains_table("USERS"));
    assert!(db.get("Users").is_ok());
}

#[test]
fn original_spelling_is_preserved() {
    let mut db = Database::new();
    db.create_table("UserAccounts", users_schema()).unwrap();
    assert!(db.contains_table("useraccounts"));
    assert_eq!(db.get("useraccounts").unwrap().name(), "UserAccounts");
    assert_eq!(db.table_names(), vec!["UserAccounts"]);
}

#[test]
fn duplicate_table_is_refused_ignoring_case() {
    let mut db = db();
    assert_eq!(
        db.create_table("USERS", users_schema()),
        Err(DbError::TableAlreadyExists { name: "USERS".to_string() })
    );
    assert_eq!(db.len(), 1);
    assert_eq!(db.get("users").unwrap().name(), "users");
}

#[test]
fn drop_table_hands_back_the_table() {
    let mut db = db();
    db.create_table("orders", users_schema()).unwrap();
    let t = db.drop_table("Users").unwrap();
    assert_eq!(t.name(), "users");
    assert!(!db.contains_table("users"));
    assert!(db.contains_table("orders"));
    assert_eq!(db.len(), 1);
    assert_eq!(
        db.drop_table("users").unwrap_err(),
        DbError::NoSuchTable { name: "users".to_string() }
    );
}

#[test]
fn missing_table_is_reported() {
    let mut db = db();
    assert_eq!(
        db.get("nope").unwrap_err(),
        DbError::NoSuchTable { name: "nope".to_string() }
    );
    assert!(db.get_mut("nope").is_err());
    assert!(db.try_get("nope").is_none());
    assert!(db.try_get_mut("nope").is_none());
}

#[test]
fn changes_through_get_mut_are_kept() {
    let mut db = db();
    db.get_mut("USERS")
        .unwrap()
        .insert(vec![1.into(), "ada".into(), "ada@example.com".into()])
        .unwrap();
    assert_eq!(db.get("users").unwrap().len(), 1);
    db.try_get_mut("Users").unwrap().delete(0);
    assert_eq!(db.try_get("users").unwrap().len(), 0);
    assert_eq!(db.try_get("users").unwrap().slot_count(), 1);
}

#[test]
fn table_names_are_sorted() {
    let mut db = Database::new();
    assert!(db.is_empty());
    for name in ["orders", "Zeta", "alpha", "beta"] {
        db.create_table(name, users_schema()).unwrap();
    }
    assert_eq!(db.table_names(), vec!["Zeta", "alpha", "beta", "orders"]);
    assert_eq!(db.iter().len(), 4);
    assert!(!db.is_empty());
}

#[test]
fn a_dropped_name_can_be_created_again() {
    let mut db = db();
    db.drop_table("users").unwrap();
    assert!(db.create_table("Users", users_schema()).is_ok());
    assert_eq!(db.get("users").unwrap().name(), "Users");
    assert_eq!(Database::default().len(), 0);
}

#[test]
fn found_tables_bear_the_name_looked_up() {
    let mut db = Database::new();
    db.create_table("Orders", users_schema()).unwrap();
    db.create_table("items", users_schema()).unwrap();
    assert!(db.get("ORDERS").unwrap().name().eq_ignore_ascii_case("ORDERS"));
    assert!(db.try_get("Items").unwrap().name().eq_ignore_ascii_case("Items"));
    let names = db.table_names();
    for (a, x) in names.iter().enumerate() {
        for y in names.iter().skip(a + 1) {
            assert!(!x.eq_ignore_ascii_case(y));
        }
    }
}

#[test]
fn a_cloned_database_is_independent() {
    let mut db = db();
    let copy = db.clone();
    db.get_mut("users")
        .unwrap()
        .insert(vec![1.into(), "ada".into(), "a@b".into()])
        .unwrap();
    assert_eq!(copy.get("users").unwrap().len(), 0);
    assert_eq!(db.get("users").unwrap().len(), 1);
    assert_eq!(copy.table_names(), vec!["users"]);
}

#[test]
fn create_then_drop_restores_the_database() {
    let mut db = db();
    db.create_table("orders", users_schema()).unwrap();
    let names_before: Vec<String> = db.table_names().into_iter().map(|s| s.to_string()).collect();
    let len_before = db.len();
    let s = users_schema();
    db.create_table("Line_Items", s.clone()).unwrap();
    let tb = db.drop_table(&"Line_Items".to_ascii_uppercase()).unwrap();
    assert_eq!(tb.name(), "Line_Items");
    assert_eq!(tb.schema(), &s);
    assert_eq!(tb.len(), 0);
    let names_after: Vec<String> = db.table_names().into_iter().map(|s| s.to_string()).collect();
    assert_eq!(names_after, names_before);
    assert_eq!(db.len(), len_before);
    assert!(!db.contains_table("line_items"));
}

#[test]
fn result_alias_names_the_error_type() {
    let r: rust_db::error::Result<()> = Err(DbError::EmptySchema);
    assert!(r.is_err());
}
