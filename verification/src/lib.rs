//! A small relational query engine over comma-separated tables.
//!
//! A query is cut into tokens, the tokens are assembled into one of four
//! statements, and the statement is applied to the lines of a table: the
//! header line names the columns, every further line is one row. Nothing
//! here touches a file: the lines come in as texts, and what is to be done
//! with the table goes out as texts.

pub mod condition;
pub mod delete_sql;
pub mod errors;
pub mod insert_sql;
pub mod into_sql;
pub mod orderby_sql;
pub mod query;
pub mod recursive_parser;
pub mod register;
pub mod select_sql;
pub mod set_sql;
pub mod table;
pub mod text;
pub mod tokens;
pub mod update_sql;
pub mod utils;
pub mod where_sql;
