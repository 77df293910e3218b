//! Verified core of a desktop database client: decoding of PostgreSQL
//! `numeric` values, the SQL text that the SQLite driver sends, the shaping
//! of query results, CSV export and import, and the SSH authentication order.
pub mod models;
pub mod numeric;
pub mod numeric_value;
pub mod sql;
pub mod sqlite;
pub mod ssh;
pub mod text;
pub mod transfer;
