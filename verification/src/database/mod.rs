//! The database that keeps the text of each indexed line.

pub mod sql_database;
