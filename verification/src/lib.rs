//! A small in-memory relational store: typed values, schemas that check rows,
//! tables of rows with stable ids, and a catalogue of tables whose names are
//! matched without regard to ASCII case.
pub mod text;
pub mod value;
pub mod float;
pub mod value_cmp;
pub mod error;
pub mod schema;
pub mod table;
pub mod database;
