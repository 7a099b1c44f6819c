//! The errors the store reports, and their messages.
use vstd::prelude::*;

use crate::text::{append_decimal, append_text, decimal};
use crate::value::{DataType, data_type_name};

verus! {

/// Why an operation was refused.
#[derive(Debug, Clone, PartialEq)]
pub enum DbError {
    /// Two columns of a schema share a name (ignoring ASCII case).
    DuplicateColumn { name: String },
    /// A schema without columns.
    EmptySchema,
    /// A row with the wrong number of values.
    ArityMismatch { expected: usize, got: usize },
    /// A value that does not fit its column.
    TypeMismatch { column: String, expected: DataType, got: Option<DataType> },
    /// A column name that the schema does not have.
    NoSuchColumn { name: String },
    /// A table name that the database does not have.
    NoSuchTable { name: String },
    /// A table name that the database already has.
    TableAlreadyExists { name: String },
}

/// The result of a store operation that can be refused.
pub type Result<T> = std::result::Result<T, DbError>;

/// The model of an error: names are their characters.
pub enum DbErrorView {
    DuplicateColumn { name: Seq<char> },
    EmptySchema,
    ArityMismatch { expected: usize, got: usize },
    TypeMismatch { column: Seq<char>, expected: DataType, got: Option<DataType> },
    NoSuchColumn { name: Seq<char> },
    NoSuchTable { name: Seq<char> },
    TableAlreadyExists { name: Seq<char> },
}

impl View for DbError {
    type V = DbErrorView;

    open spec fn view(&self) -> DbErrorView {
        match self {
            DbError::DuplicateColumn { name } => DbErrorView::DuplicateColumn { name: name@ },
            DbError::EmptySchema => DbErrorView::EmptySchema,
            DbError::ArityMismatch { expected, got } => DbErrorView::ArityMismatch {
                expected: *expected,
                got: *got,
            },
            DbError::TypeMismatch { column, expected, got } => DbErrorView::TypeMismatch {
                column: column@,
                expected: *expected,
                got: *got,
            },
            DbError::NoSuchColumn { name } => DbErrorView::NoSuchColumn { name: name@ },
            DbError::NoSuchTable { name } => DbErrorView::NoSuchTable { name: name@ },
            DbError::TableAlreadyExists { name } => DbErrorView::TableAlreadyExists { name: name@ },
        }
    }
}

/// The message an error is shown with.
pub open spec fn error_message(e: DbErrorView) -> Seq<char> {
    match e {
        DbErrorView::DuplicateColumn { name } => "Duplicate column name: `"@ + name + "`"@,
        DbErrorView::EmptySchema => "A table must have at least one column"@,
        DbErrorView::ArityMismatch { expected, got } => "Expected "@ + decimal(expected as nat)
            + " value(s), got "@ + decimal(got as nat),
        DbErrorView::TypeMismatch { column, expected, got } => "column `"@ + column + "` expects "@
            + data_type_name(expected) + ", got "@ + match got {
            Some(t) => data_type_name(t),
            None => "NULL"@,
        },
        DbErrorView::NoSuchColumn { name } => "no such column `"@ + name + "`"@,
        DbErrorView::NoSuchTable { name } => "no such table `"@ + name + "`"@,
        DbErrorView::TableAlreadyExists { name } => "table `"@ + name + "` already exists"@,
    }
}

impl DbError {
    /// The message the error is shown with.
    pub fn to_string(&self) -> (r: String)
        ensures
            r@ == error_message(self@),
    {
        let mut r = String::new();
        match self {
            DbError::DuplicateColumn { name } => {
                append_text(&mut r, "Duplicate column name: `");
                append_text(&mut r, name.as_str());
                append_text(&mut r, "`");
            },
            DbError::EmptySchema => {
                append_text(&mut r, "A table must have at least one column");
            },
            DbError::ArityMismatch { expected, got } => {
                append_text(&mut r, "Expected ");
                append_decimal(&mut r, *expected as u64);
                append_text(&mut r, " value(s), got ");
                append_decimal(&mut r, *got as u64);
            },
            DbError::TypeMismatch { column, expected, got } => {
                append_text(&mut r, "column `");
                append_text(&mut r, column.as_str());
                append_text(&mut r, "` expects ");
                append_text(&mut r, expected.name());
                append_text(&mut r, ", got ");
                match got {
                    Some(t) => append_text(&mut r, t.name()),
                    None => append_text(&mut r, "NULL"),
                }
            },
            DbError::NoSuchColumn { name } => {
                append_text(&mut r, "no such column `");
                append_text(&mut r, name.as_str());
                append_text(&mut r, "`");
            },
            DbError::NoSuchTable { name } => {
                append_text(&mut r, "no such table `");
                append_text(&mut r, name.as_str());
                append_text(&mut r, "`");
            },
            DbError::TableAlreadyExists { name } => {
                append_text(&mut r, "table `");
                append_text(&mut r, name.as_str());
                append_text(&mut r, "` already exists");
            },
        }
        assert(r@ =~= error_message(self@));
        r
    }
}

} // verus!
