//! ClickHouse side of the storage: the migration script and the shape of the
//! rows that are written and read.

pub mod client;
pub mod queries;
pub mod rows;
pub mod schema;
