//! Data shared by the drivers: connection settings, query results, schema
//! descriptions. Independent of any particular database driver.
use vstd::prelude::*;

verus! {

/// A result column.
#[derive(Debug)]
pub struct ColumnInfo {
    pub name: String,
    pub sql_type: String,
}

/// One cell of a result row, as it is shown to the user: SQL `NULL`, an
/// integer, a finite floating-point number (kept as its IEEE-754 bit
/// pattern), or text.
#[derive(Debug)]
pub enum CellValue {
    Null,
    Integer(i64),
    Real(u64),
    Text(String),
}

/// The outcome of one statement: the result set, or for a statement without
/// result columns the number of rows it changed.
#[derive(Debug)]
pub struct QueryResult {
    pub columns: Vec<ColumnInfo>,
    pub rows: Vec<Vec<CellValue>>,
    pub rows_affected: Option<u64>,
    pub message: Option<String>,
}

/// What the client learns about a freshly opened connection.
#[derive(Debug)]
pub struct ConnectionInfo {
    pub id: String,
    pub version: String,
    pub user: String,
    pub host: String,
    pub port: u16,
}

/// Connection settings, one field per field of the connection form.
#[derive(Debug)]
pub struct ConnConfig {
    pub db_type: String,
    pub host: String,
    pub port: u16,
    pub user: String,
    pub password: String,
    pub dbname: String,
    /// The database file, for SQLite.
    pub path: String,
    pub ssh_enabled: bool,
    pub ssh_host: String,
    pub ssh_port: u16,
    pub ssh_user: String,
    pub ssh_pass: String,
}

impl ConnConfig {
    /// The connection is to an SQLite database file.
    pub fn is_sqlite(&self) -> (res: bool)
        ensures
            res == (self.db_type@ == "sqlite"@),
    {
        let sqlite = String::from_str("sqlite");
        self.db_type == sqlite
    }
}

/// The results of several statements run one after the other.
#[derive(Debug)]
pub struct MultiResult {
    pub results: Vec<QueryResult>,
}

#[derive(Debug)]
pub struct DatabaseInfo {
    pub name: String,
}

#[derive(Debug)]
pub struct TableInfo {
    pub name: String,
    /// `"table"` or `"view"`.
    pub kind: String,
}

/// A column of a table as the schema describes it.
#[derive(Debug)]
pub struct SchemaColumn {
    pub name: String,
    pub sql_type: String,
    /// `"YES"` or `"NO"`.
    pub is_nullable: String,
    pub default: Option<String>,
    pub is_pk: bool,
    pub comment: Option<String>,
}

/// An index of a table (primary-key indexes are not listed).
#[derive(Debug)]
pub struct IndexInfo {
    pub name: String,
    pub columns: String,
    pub is_unique: bool,
}

/// One page of a table, with the total row count.
#[derive(Debug)]
pub struct TablePage {
    pub columns: Vec<ColumnInfo>,
    pub rows: Vec<Vec<CellValue>>,
    pub total: Option<i64>,
}

/// A connection as it is saved (without its password).
#[derive(Debug)]
pub struct SavedConn {
    pub db_type: String,
    pub name: String,
    pub host: String,
    pub port: u16,
    pub user: String,
    pub dbname: String,
}

/// A filter on one column of a browsed table.
#[derive(Debug)]
pub struct FilterCond {
    pub column: String,
    pub op: String,
    pub value: Option<String>,
}

/// A column of a table being designed.
#[derive(Debug)]
pub struct ColumnDef {
    pub name: String,
    pub col_type: String,
    pub nullable: bool,
    pub default: Option<String>,
    pub is_pk: bool,
    pub is_serial: bool,
    pub comment: Option<String>,
}

/// One difference found when two schemas are compared.
#[derive(Debug)]
pub struct SchemaDiff {
    pub table: String,
    /// `"create"`, `"alter"` or `"drop"`.
    pub action: String,
    pub sql: String,
}

/// A value for one column of a row being written.
#[derive(Debug)]
pub struct ColValue {
    pub name: String,
    pub value: Option<String>,
}

/// The decimal text of a PostgreSQL `numeric` value.
#[derive(Debug)]
pub struct NumericString(pub String);

/// The database kind that a saved connection has when none is recorded.
pub fn default_db_type() -> (res: String)
    ensures
        res@ == "postgres"@,
{
    String::from_str("postgres")
}

} // verus!
