use tusk::models::{default_db_type, CellValue, ConnConfig, FilterCond};
use tusk::sql::{
    count_sql, delete_row_sql, insert_row_sql, list_tables_sql, page_offset,
    page_sql, rowid_to_i32, select_all_sql, str_is_blank, table_info_sql, update_cell_sql,
    where_clause,
};
use tusk::sqlite::{
    columns_of, connection_id, connection_info, database_list,
    query_result, row_val, schema_column, table_infos, table_page,
    validate_sqlite_path, SqlValue,
};

fn strings(v: &[&str]) -> Vec<String> {
    v.iter().map(|s| s.to_string()).collect()
}

fn text_of(c: &CellValue) -> Option<&str> {
    match c {
        CellValue::Text(s) => Some(s.as_str()),
        _ => None,
    }
}

#[test]
fn default_kind_is_postgres() {
    assert_eq!(default_db_type(), "postgres");
}

#[test]
fn config_kind() {
    let mut cfg = ConnConfig {
        db_type: "sqlite".to_string(),
        host: String::new(),
        port: 0,
        user: String::new(),
        password: String::new(),
        dbname: String::new(),
        path: "/tmp/test.db".to_string(),
        ssh_enabled: false,
        ssh_host: String::new(),
        ssh_port: 22,
        ssh_user: String::new(),
        ssh_pass: String::new(),
    };
    assert!(cfg.is_sqlite());
    cfg.db_type = "postgres".to_string();
    assert!(!cfg.is_sqlite());
}

#[test]
fn identifiers_are_quoted() {
    assert_eq!(table_info_sql("t1"), "PRAGMA table_info(\"t1\")");
    assert_eq!(table_info_sql("a\"b"), "PRAGMA table_info(\"a\"\"b\")");
    assert_eq!(select_all_sql("t1"), "SELECT * FROM \"t1\"");
}

#[test]
fn tables_query() {
    assert_eq!(
        list_tables_sql(),
        "SELECT name FROM sqlite_master WHERE type='table' AND name NOT LIKE 'sqlite_%' ORDER BY name"
    );
}

#[test]
fn where_clause_variants() {
    assert_eq!(where_clause(&None), "");
    let blank = FilterCond { column: "name".into(), op: "LIKE".into(), value: Some(" \t".into()) };
    assert_eq!(where_clause(&Some(blank)), "");
    let missing = FilterCond { column: "name".into(), op: "=".into(), value: None };
    assert_eq!(where_clause(&Some(missing)), "");
    let like = FilterCond { column: "na\"me".into(), op: "LIKE".into(), value: Some("ap%".into()) };
    assert_eq!(where_clause(&Some(like)), " WHERE \"na\"\"me\" LIKE \"ap%\"");
    let eq = FilterCond { column: "id".into(), op: "like".into(), value: Some("3".into()) };
    assert_eq!(where_clause(&Some(eq)), " WHERE \"id\" = \"3\"");
}

#[test]
fn blank_text() {
    assert!(str_is_blank(""));
    assert!(str_is_blank(" \u{3000}\n"));
    assert!(!str_is_blank(" a "));
}

#[test]
fn paging_statements() {
    assert_eq!(count_sql("t1", ""), "SELECT count(*) FROM \"t1\"");
    assert_eq!(count_sql("t1", " WHERE \"id\" = \"1\""), "SELECT count(*) FROM \"t1\" WHERE \"id\" = \"1\"");
    assert_eq!(page_sql("t1", "", 0, 2), "SELECT * FROM \"t1\" LIMIT 2 OFFSET 0");
    assert_eq!(page_sql("t1", "", 1, 2), "SELECT * FROM \"t1\" LIMIT 2 OFFSET 2");
    assert_eq!(page_sql("t1", "", 7, 50), "SELECT * FROM \"t1\" LIMIT 50 OFFSET 350");
    assert_eq!(page_offset(3, 4), Some(12));
    assert_eq!(page_offset(u64::MAX, 2), None);
}

#[test]
fn row_statements() {
    assert_eq!(
        update_cell_sql("t1", "name", &Some("orange".into())),
        "UPDATE \"t1\" SET \"name\" = ?1 WHERE rowid = ?2"
    );
    assert_eq!(
        update_cell_sql("t1", "name", &None),
        "UPDATE \"t1\" SET \"name\" = NULL WHERE rowid = ?2"
    );
    assert_eq!(delete_row_sql("t1"), "DELETE FROM \"t1\" WHERE rowid = ?1");
    assert_eq!(insert_row_sql("t1"), "INSERT INTO \"t1\" DEFAULT VALUES");
}

#[test]
fn rowid_truncation() {
    assert_eq!(rowid_to_i32(42), 42);
    assert_eq!(rowid_to_i32((1i64 << 32) + 5), 5);
    assert_eq!(rowid_to_i32(0x8000_0000), i32::MIN);
    assert_eq!(rowid_to_i32(-1), -1);
}

#[test]
fn cells_from_values() {
    assert!(matches!(row_val(None), CellValue::Null));
    assert!(matches!(row_val(Some(SqlValue::Null)), CellValue::Null));
    assert!(matches!(row_val(Some(SqlValue::Integer(-7))), CellValue::Integer(-7)));
    let bits = 1.5f64.to_bits();
    assert!(matches!(row_val(Some(SqlValue::Real(bits))), CellValue::Real(b) if b == bits));
    assert!(matches!(row_val(Some(SqlValue::Real(f64::NAN.to_bits()))), CellValue::Null));
    assert!(matches!(row_val(Some(SqlValue::Real(f64::INFINITY.to_bits()))), CellValue::Null));
    let apple = row_val(Some(SqlValue::Text(b"apple".to_vec())));
    assert_eq!(text_of(&apple), Some("apple"));
    let broken = row_val(Some(SqlValue::Text(vec![b'a', 0xff, b'b'])));
    assert_eq!(text_of(&broken), Some("a\u{fffd}b"));
    let blob = row_val(Some(SqlValue::Blob(12)));
    assert_eq!(text_of(&blob), Some("<blob 12 bytes>"));
}

#[test]
fn statement_results() {
    let ddl = query_result(&Vec::new(), Vec::new(), 3);
    assert_eq!(ddl.rows_affected, Some(3));
    assert!(ddl.columns.is_empty());
    assert!(ddl.message.is_none());

    let names = strings(&["name", "price"]);
    let rows = vec![vec![CellValue::Text("apple".into()), CellValue::Null]];
    let sel = query_result(&names, rows, 9);
    assert_eq!(sel.rows_affected, None);
    assert_eq!(sel.columns.len(), 2);
    assert_eq!(sel.columns[1].name, "price");
    assert_eq!(sel.columns[1].sql_type, "");
    assert_eq!(sel.rows.len(), 1);

    // Columns without rows: not a DDL/DML result.
    let empty_sel = query_result(&names, Vec::new(), 9);
    assert_eq!(empty_sel.rows_affected, None);
}

#[test]
fn pages_and_columns() {
    let names = strings(&["id"]);
    let page = table_page(&names, vec![vec![CellValue::Integer(1)], vec![CellValue::Integer(2)]], 3);
    assert_eq!(page.total, Some(3));
    assert_eq!(page.rows.len(), 2);
    assert_eq!(page.columns[0].name, "id");
    let cols = columns_of(&strings(&["a", "b", "c"]));
    assert_eq!(cols.len(), 3);
    assert_eq!(cols[2].name, "c");
}

#[test]
fn schema_rows() {
    let pk = schema_column("id".into(), "INTEGER".into(), 0, None, 1);
    assert_eq!(pk.is_nullable, "YES");
    assert!(pk.is_pk);
    assert!(pk.comment.is_none());
    let nn = schema_column("name".into(), "TEXT".into(), 1, Some("'x'".into()), 0);
    assert_eq!(nn.is_nullable, "NO");
    assert!(!nn.is_pk);
    assert_eq!(nn.default.as_deref(), Some("'x'"));
    assert_eq!(nn.sql_type, "TEXT");
    let tables = table_infos(&strings(&["t1", "t2"]));
    assert_eq!(tables.len(), 2);
    assert_eq!(tables[0].name, "t1");
    assert_eq!(tables[1].kind, "table");
}

#[test]
fn opening_a_file() {
    assert_eq!(validate_sqlite_path("").unwrap_err(), "请选择 SQLite 数据库文件");
    assert!(validate_sqlite_path("  \t").is_err());
    assert!(validate_sqlite_path("/tmp/a.db").is_ok());
    assert_eq!(connection_id(1700000000123), "conn-1700000000123");
    assert_eq!(connection_id(0), "conn-0");

    let info = connection_info("conn-1".into(), "3.45.0", "/tmp/dir/test.db");
    assert_eq!(info.host, "test.db");
    assert_eq!(info.version, "SQLite 3.45.0");
    assert_eq!(info.user, "");
    assert_eq!(info.port, 0);
    assert_eq!(info.id, "conn-1");

    let root = connection_info("conn-2".into(), "3", "/");
    assert_eq!(root.host, "/");

    assert_eq!(connection_info("c".into(), "3", "").host, "");
    assert_eq!(connection_info("c".into(), "3", "foo.txt/.//").host, "foo.txt");
}

#[test]
fn one_database_per_file() {
    let dbs = database_list("/tmp/dir/test.db");
    assert_eq!(dbs.len(), 1);
    assert_eq!(dbs[0].name, "test.db");
    assert_eq!(database_list("/tmp/..")[0].name, "main");
    assert_eq!(database_list("")[0].name, "main");
    assert_eq!(database_list("/")[0].name, "main");
    assert_eq!(database_list(".")[0].name, "main");
    assert_eq!(database_list("./")[0].name, "main");
    assert_eq!(database_list("a/./")[0].name, "a");
    assert_eq!(database_list("a//b.db/")[0].name, "b.db");
    assert_eq!(database_list("../x.db")[0].name, "x.db");
    assert_eq!(database_list("x..")[0].name, "x..");
}
