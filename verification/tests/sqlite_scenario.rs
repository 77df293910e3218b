//! The SQL that the library writes, run against a real (in-memory) SQLite
//! database, following the connect / query / browse / edit / export chain.
use rusqlite::Connection;
use tusk::models::{CellValue, QueryResult};
use tusk::sql::{
    count_sql, delete_row_sql, insert_row_sql, list_tables_sql, page_sql, select_all_sql,
    table_info_sql, update_cell_params, update_cell_sql, where_clause, SqlParam,
};
use tusk::sqlite::{query_result, row_val, schema_column, table_infos, SqlValue};
use tusk::transfer::{
    cell_text, csv_export_text, import_plan, import_row_error, read_import_file, ImportStage,
};

fn sql_value(v: rusqlite::Result<rusqlite::types::ValueRef<'_>>) -> Option<SqlValue> {
    match v {
        Ok(rusqlite::types::ValueRef::Null) => Some(SqlValue::Null),
        Ok(rusqlite::types::ValueRef::Integer(i)) => Some(SqlValue::Integer(i)),
        Ok(rusqlite::types::ValueRef::Real(f)) => Some(SqlValue::Real(f.to_bits())),
        Ok(rusqlite::types::ValueRef::Text(t)) => Some(SqlValue::Text(t.to_vec())),
        Ok(rusqlite::types::ValueRef::Blob(b)) => Some(SqlValue::Blob(b.len())),
        Err(_) => None,
    }
}

fn params(ps: Vec<SqlParam>) -> Vec<rusqlite::types::Value> {
    ps.into_iter()
        .map(|p| match p {
            SqlParam::Null => rusqlite::types::Value::Null,
            SqlParam::Integer(i) => rusqlite::types::Value::Integer(i),
            SqlParam::Text(s) => rusqlite::types::Value::Text(s),
        })
        .collect()
}

fn run(conn: &Connection, sql: &str) -> QueryResult {
    let mut stmt = conn.prepare(sql).expect("statement");
    let names: Vec<String> = stmt.column_names().map(|c| c.to_string()).collect();
    let n = names.len();
    let mut rows = Vec::new();
    let mut iter = stmt.query([]).expect("query");
    while let Some(row) = iter.next().expect("row") {
        let mut vals = Vec::new();
        for i in 0..n {
            vals.push(row_val(sql_value(row.get_ref(i))));
        }
        rows.push(vals);
    }
    query_result(&names, rows, conn.changes())
}

fn count(conn: &Connection, table: &str) -> i64 {
    conn.query_row(&count_sql(table, &where_clause(&None)), [], |r| r.get(0))
        .expect("count")
}

fn text(c: &CellValue) -> &str {
    match c {
        CellValue::Text(s) => s.as_str(),
        _ => panic!("not text"),
    }
}

#[test]
fn sqlite_chain_in_memory() {
    let conn = Connection::open_in_memory().expect("open");

    let r = run(&conn, "CREATE TABLE t1 (id INTEGER PRIMARY KEY AUTOINCREMENT, name TEXT, price REAL)");
    assert!(r.rows_affected.is_some());
    let r = run(
        &conn,
        "INSERT INTO t1 (name, price) VALUES ('apple', 1.5), ('banana', 2.75), ('cherry', NULL)",
    );
    assert_eq!(r.rows_affected, Some(3));

    let r = run(&conn, "SELECT name, price FROM t1 ORDER BY id");
    assert_eq!(r.columns.len(), 2);
    assert_eq!(r.rows.len(), 3);
    assert_eq!(text(&r.rows[0][0]), "apple");
    assert!(matches!(r.rows[0][1], CellValue::Real(b) if b == 1.5f64.to_bits()));
    assert!(matches!(r.rows[2][1], CellValue::Null));

    let mut stmt = conn.prepare(&list_tables_sql()).expect("tables");
    let names: Vec<String> = stmt
        .query_map([], |r| r.get::<_, String>(0))
        .expect("names")
        .map(|n| n.expect("name"))
        .collect();
    let tables = table_infos(&names);
    assert_eq!(tables.len(), 1);
    assert_eq!(tables[0].name, "t1");

    let mut stmt = conn.prepare(&table_info_sql("t1")).expect("columns");
    let cols: Vec<_> = stmt
        .query_map([], |r| {
            Ok(schema_column(
                r.get::<_, String>(1)?,
                r.get::<_, String>(2)?,
                r.get::<_, i64>(3)?,
                r.get::<_, Option<String>>(4)?,
                r.get::<_, i64>(5)?,
            ))
        })
        .expect("rows")
        .map(|c| c.expect("column"))
        .collect();
    assert_eq!(cols.len(), 3);
    assert!(cols[0].is_pk);

    assert_eq!(count(&conn, "t1"), 3);
    let page0 = run(&conn, &page_sql("t1", "", 0, 2));
    assert_eq!(page0.rows.len(), 2);
    let page1 = run(&conn, &page_sql("t1", "", 1, 2));
    assert_eq!(page1.rows.len(), 1);

    let value = Some("orange".to_string());
    conn.execute(
        &update_cell_sql("t1", "name", &value),
        rusqlite::params_from_iter(params(update_cell_params(&value, 2))),
    )
    .expect("update");
    let r = run(&conn, "SELECT name FROM t1 WHERE rowid = 2");
    assert_eq!(text(&r.rows[0][0]), "orange");

    conn.execute(
        &update_cell_sql("t1", "price", &None),
        rusqlite::params_from_iter(params(update_cell_params(&None, 1))),
    )
    .expect("update to NULL");
    let r = run(&conn, "SELECT price FROM t1 WHERE rowid = 1");
    assert!(matches!(r.rows[0][0], CellValue::Null));

    conn.execute(&delete_row_sql("t1"), [3i64]).expect("delete");
    assert_eq!(count(&conn, "t1"), 2);

    conn.execute(&insert_row_sql("t1"), []).expect("insert");
    assert_eq!(count(&conn, "t1"), 3);

    let all = run(&conn, &select_all_sql("t1"));
    let names: Vec<String> = all.columns.iter().map(|c| c.name.clone()).collect();
    let rows: Vec<Vec<String>> = all
        .rows
        .iter()
        .map(|r| {
            r.iter()
                .map(|c| cell_text(c).unwrap_or_else(|| "<real>".to_string()))
                .collect()
        })
        .collect();
    let csv = csv_export_text(&names, &rows);
    assert!(csv.contains("name"));
    assert!(csv.contains("orange"));
}

#[test]
fn quoted_names_reach_the_right_table() {
    let conn = Connection::open_in_memory().expect("open");
    let odd = "we\"ird table";
    conn.execute_batch("CREATE TABLE \"we\"\"ird table\" (\"co\"\"l\" TEXT)").expect("create");
    conn.execute(&insert_row_sql(odd), []).expect("insert");
    assert_eq!(count(&conn, odd), 1);
    let r = run(&conn, &select_all_sql(odd));
    assert_eq!(r.columns[0].name, "co\"l");
    assert_eq!(r.rows.len(), 1);
}

fn import(conn: &Connection, table: &str, data: &str) -> Result<u64, String> {
    let file = read_import_file(&data.as_bytes().to_vec())?;
    let mut stmt = conn.prepare(&table_info_sql(table)).expect("columns");
    let targets: Vec<String> = stmt
        .query_map([], |r| r.get::<_, String>(1))
        .expect("names")
        .map(|n| n.expect("name"))
        .collect();
    let (sql, steps) = import_plan(table, &file, &targets)?;
    let mut ins = conn.prepare(&sql).expect("insert");
    let mut n = 0u64;
    for step in steps {
        let vals = step?;
        ins.execute(rusqlite::params_from_iter(vals.iter().map(|s| s.as_str())))
            .map_err(|e| import_row_error(ImportStage::Insert, n, &e.to_string()))?;
        n += 1;
    }
    Ok(n)
}

#[test]
fn import_into_table() {
    let conn = Connection::open_in_memory().expect("open");
    conn.execute_batch("CREATE TABLE t2 (id INTEGER, name TEXT)").expect("create");
    let n = import(&conn, "t2", " Name ,extra\napple,x\nbanana,y\n").expect("import");
    assert_eq!(n, 2);
    assert_eq!(count(&conn, "t2"), 2);
}

#[test]
fn import_several_columns() {
    let conn = Connection::open_in_memory().expect("open");
    conn.execute_batch("CREATE TABLE t3 (id INTEGER, name TEXT)").expect("create");
    let n = import(&conn, "t3", "ID,skip,name\n1,x,apple\n2,y,\"ba,nana\"\n").expect("import");
    assert_eq!(n, 2);
    let r = run(&conn, "SELECT id, name FROM t3 ORDER BY id");
    assert!(matches!(r.rows[0][0], CellValue::Integer(1)));
    assert_eq!(text(&r.rows[0][1]), "apple");
    assert_eq!(text(&r.rows[1][1]), "ba,nana");
}

#[test]
fn import_stops_at_unreadable_record() {
    let conn = Connection::open_in_memory().expect("open");
    conn.execute_batch("CREATE TABLE t4 (id INTEGER, name TEXT)").expect("create");
    let err = import(&conn, "t4", "id,name\n1,a\n2\n3,c\n").unwrap_err();
    assert!(err.starts_with("解析第 3 行失败: "), "{}", err);
    assert_eq!(count(&conn, "t4"), 1);
}

#[test]
fn import_without_matching_header() {
    let conn = Connection::open_in_memory().expect("open");
    conn.execute_batch("CREATE TABLE t5 (id INTEGER, name TEXT)").expect("create");
    assert_eq!(
        import(&conn, "t5", "x,y\n1,2\n").unwrap_err(),
        "CSV 表头与目标表列无匹配（目标列: id, name）"
    );
}
