//! The SQLite driver's own decisions: checking and describing a database
//! file, turning column values into result cells, and shaping result sets,
//! pages and schema rows.
use vstd::prelude::*;
use vstd::utf8::{decode_utf8, valid_utf8};
use crate::models::{
    CellValue, ColumnInfo, ConnectionInfo, DatabaseInfo, QueryResult, SchemaColumn, TableInfo,
    TablePage,
};
use crate::text::{chars_to_string, decimal, is_blank, push_decimal, push_str};
use crate::sql::str_is_blank;

verus! {

/// What `String::from_utf8_lossy` gives for `bytes`.
pub uninterp spec fn spec_utf8_lossy(bytes: Seq<u8>) -> Seq<char>;

/// The characters after the last `/` of `p`.
pub open spec fn last_segment(p: Seq<char>) -> Seq<char>
    decreases p.len(),
{
    if p.len() == 0 || p.last() == '/' {
        seq![]
    } else {
        last_segment(p.drop_last()).push(p.last())
    }
}

/// The file name of a Unix path: its final component, where repeated and
/// trailing `/` and `.` components do not count; none when the path has no
/// component, or ends in `..`, in the root, or in a leading `.`.
pub open spec fn file_name_of(p: Seq<char>) -> Option<Seq<char>>
    decreases p.len(),
{
    if p.len() == 0 {
        None
    } else if p.last() == '/' {
        file_name_of(p.drop_last())
    } else if last_segment(p) == seq!['.'] {
        if p.len() == 1 {
            None
        } else {
            file_name_of(p.drop_last())
        }
    } else if last_segment(p) == seq!['.', '.'] {
        None
    } else {
        Some(last_segment(p))
    }
}

/// Calls `String::from_utf8_lossy`: the text of `bytes`, with each invalid
/// UTF-8 sequence replaced by U+FFFD. The contract names the result and
/// states what the documentation promises of valid UTF-8: it is decoded as is.
#[verifier::external_body]
fn utf8_lossy(bytes: &Vec<u8>) -> (res: String)
    ensures
        res@ == spec_utf8_lossy(bytes@),
        valid_utf8(bytes@) ==> res@ == decode_utf8(bytes@),
{
    String::from_utf8_lossy(bytes.as_slice()).into_owned()
}

/// Calls `Path::file_name` on `path` and converts the component to text
/// (lossless: the path is UTF-8). The contract states what the documentation
/// of `Path::file_name` and `Path::components` describes for Unix paths:
/// the final component, after repeated separators, trailing separators and
/// `.` components (but a leading one) are normalized away; none when that
/// component is not a normal one (`..`, the root, a leading `.`, nothing).
#[verifier::external_body]
fn path_file_name(path: &str) -> (res: Option<String>)
    ensures
        res matches Some(s) ==> file_name_of(path@) == Some(s@),
        res is None ==> file_name_of(path@) is None,
{
    match std::path::Path::new(path).file_name() {
        Some(name) => Some(name.to_string_lossy().into_owned()),
        None => None,
    }
}

/// A column value as SQLite returns it. A real number is kept as its
/// IEEE-754 bit pattern; of a blob only its length matters.
#[derive(Debug)]
pub enum SqlValue {
    Null,
    Integer(i64),
    Real(u64),
    Text(Vec<u8>),
    Blob(usize),
}

/// The abstract content of a result cell.
pub enum CellView {
    Null,
    Integer(i64),
    Real(u64),
    Text(Seq<char>),
}

impl View for CellValue {
    type V = CellView;

    open spec fn view(&self) -> CellView {
        match self {
            CellValue::Null => CellView::Null,
            CellValue::Integer(i) => CellView::Integer(*i),
            CellValue::Real(b) => CellView::Real(*b),
            CellValue::Text(s) => CellView::Text(s@),
        }
    }
}

/// The bit pattern is that of a finite number (not an infinity or a NaN).
pub open spec fn finite_bits(bits: u64) -> bool {
    (bits >> 52u64) & 0x7ffu64 != 0x7ffu64
}

/// The text shown for a blob: `<blob N bytes>`.
pub open spec fn blob_text(len: nat) -> Seq<char> {
    "<blob "@ + decimal(len) + " bytes>"@
}

/// The cell shown for a column value; `None` stands for a value that could
/// not be read. Numbers that are not finite are shown as `NULL`.
pub open spec fn spec_row_val(value: Option<SqlValue>) -> CellView {
    match value {
        None => CellView::Null,
        Some(SqlValue::Null) => CellView::Null,
        Some(SqlValue::Integer(i)) => CellView::Integer(i),
        Some(SqlValue::Real(b)) => if finite_bits(b) {
            CellView::Real(b)
        } else {
            CellView::Null
        },
        Some(SqlValue::Text(bytes)) => CellView::Text(spec_utf8_lossy(bytes@)),
        Some(SqlValue::Blob(n)) => CellView::Text(blob_text(n as nat)),
    }
}

/// Turns a column value into the cell shown in a result row.
pub fn row_val(value: Option<SqlValue>) -> (res: CellValue)
    ensures
        res@ == spec_row_val(value),
{
    match value {
        None => CellValue::Null,
        Some(SqlValue::Null) => CellValue::Null,
        Some(SqlValue::Integer(i)) => CellValue::Integer(i),
        Some(SqlValue::Real(b)) => {
            if (b >> 52u64) & 0x7ffu64 != 0x7ffu64 {
                CellValue::Real(b)
            } else {
                CellValue::Null
            }
        },
        Some(SqlValue::Text(bytes)) => CellValue::Text(utf8_lossy(&bytes)),
        Some(SqlValue::Blob(n)) => {
            let mut v: Vec<char> = Vec::new();
            push_str(&mut v, "<blob ");
            push_decimal(&mut v, n as u128);
            push_str(&mut v, " bytes>");
            CellValue::Text(chars_to_string(&v))
        },
    }
}

/// Result columns named `names`, without type names.
pub open spec fn columns_named(cols: Seq<ColumnInfo>, names: Seq<String>) -> bool {
    &&& cols.len() == names.len()
    &&& forall|i: int|
        0 <= i < cols.len() ==> (#[trigger] cols[i]).name@ == names[i]@ && cols[i].sql_type@
            == Seq::<char>::empty()
}

/// The result columns for the column names of a statement.
pub fn columns_of(names: &Vec<String>) -> (res: Vec<ColumnInfo>)
    ensures
        columns_named(res@, names@),
{
    let mut cols: Vec<ColumnInfo> = Vec::new();
    let mut i: usize = 0;
    while i < names.len()
        invariant
            i <= names.len(),
            columns_named(cols@, names@.take(i as int)),
        decreases names.len() - i,
    {
        cols.push(ColumnInfo { name: names[i].clone(), sql_type: String::new() });
        i = i + 1;
    }
    assert(names@.take(names.len() as int) =~= names@);
    cols
}

/// The result of a statement: its columns and rows and, when it returned
/// neither columns nor rows (DDL or DML), the number of rows it changed.
pub fn query_result(names: &Vec<String>, rows: Vec<Vec<CellValue>>, changes: u64) -> (res:
    QueryResult)
    ensures
        columns_named(res.columns@, names@),
        res.rows == rows,
        res.rows_affected == (if rows@.len() == 0 && names@.len() == 0 {
            Some(changes)
        } else {
            None::<u64>
        }),
        res.message is None,
{
    let columns = columns_of(names);
    let rows_affected = if rows.len() == 0 && columns.len() == 0 {
        Some(changes)
    } else {
        None
    };
    QueryResult { columns, rows, rows_affected, message: None }
}

/// One page of a table with the total row count.
pub fn table_page(names: &Vec<String>, rows: Vec<Vec<CellValue>>, total: i64) -> (res: TablePage)
    ensures
        columns_named(res.columns@, names@),
        res.rows == rows,
        res.total == Some(total),
{
    TablePage { columns: columns_of(names), rows, total: Some(total) }
}

/// A table column from one row of `PRAGMA table_info`: nullable when the
/// `notnull` flag is 0, part of the primary key when `pk` is positive.
pub fn schema_column(
    name: String,
    sql_type: String,
    notnull: i64,
    default: Option<String>,
    pk: i64,
) -> (res: SchemaColumn)
    ensures
        res.name == name,
        res.sql_type == sql_type,
        res.is_nullable@ == (if notnull == 0 {
            "YES"@
        } else {
            "NO"@
        }),
        res.default == default,
        res.is_pk == (pk > 0),
        res.comment is None,
{
    let is_nullable = if notnull == 0 {
        String::from_str("YES")
    } else {
        String::from_str("NO")
    };
    SchemaColumn { name, sql_type, is_nullable, default, is_pk: pk > 0, comment: None }
}

/// The tables named `names`, in that order.
pub fn table_infos(names: &Vec<String>) -> (res: Vec<TableInfo>)
    ensures
        res@.len() == names@.len(),
        forall|i: int|
            0 <= i < res@.len() ==> (#[trigger] res@[i]).name@ == names@[i]@ && res@[i].kind@
                == "table"@,
{
    let mut out: Vec<TableInfo> = Vec::new();
    let mut i: usize = 0;
    while i < names.len()
        invariant
            i <= names.len(),
            out@.len() == i,
            forall|j: int|
                0 <= j < i ==> (#[trigger] out@[j]).name@ == names@[j]@ && out@[j].kind@
                    == "table"@,
        decreases names.len() - i,
    {
        out.push(TableInfo { name: names[i].clone(), kind: String::from_str("table") });
        i = i + 1;
    }
    out
}

/// The message when no database file was chosen.
pub open spec fn no_file_message() -> Seq<char> {
    "请选择 SQLite 数据库文件"@
}

/// A database file must be named by something other than whitespace.
pub fn validate_sqlite_path(path: &str) -> (res: Result<(), String>)
    ensures
        res is Ok <==> !is_blank(path@),
        res matches Err(m) ==> m@ == no_file_message(),
{
    if str_is_blank(path) {
        Err(String::from_str("请选择 SQLite 数据库文件"))
    } else {
        Ok(())
    }
}

/// The id of a connection opened at `millis` milliseconds since the epoch:
/// `conn-<millis>`.
pub fn connection_id(millis: u128) -> (res: String)
    ensures
        res@ == "conn-"@ + decimal(millis as nat),
{
    let mut v: Vec<char> = Vec::new();
    push_str(&mut v, "conn-");
    push_decimal(&mut v, millis);
    chars_to_string(&v)
}

/// The host shown for a database path: the path's file name, or the path
/// itself when it has none.
pub open spec fn shown_host(path: Seq<char>) -> Seq<char> {
    match file_name_of(path) {
        Some(n) => n,
        None => path,
    }
}

/// Describes an opened SQLite connection to the database file `path`.
pub fn connection_info(id: String, version: &str, path: &str) -> (res: ConnectionInfo)
    ensures
        res.id == id,
        res.version@ == "SQLite "@ + version@,
        res.user@ == Seq::<char>::empty(),
        res.host@ == shown_host(path@),
        res.port == 0,
{
    let mut v: Vec<char> = Vec::new();
    push_str(&mut v, "SQLite ");
    push_str(&mut v, version);
    let host = match path_file_name(path) {
        Some(n) => n,
        None => String::from_str(path),
    };
    ConnectionInfo { id, version: chars_to_string(&v), user: String::new(), host, port: 0 }
}

/// An SQLite file holds one database, listed under the file's name, or as
/// `main` when the path has no file name.
pub fn database_list(path: &str) -> (res: Vec<DatabaseInfo>)
    ensures
        res@.len() == 1,
        res@[0].name@ == (match file_name_of(path@) {
            Some(n) => n,
            None => "main"@,
        }),
{
    let name = match path_file_name(path) {
        Some(n) => n,
        None => String::from_str("main"),
    };
    let mut out: Vec<DatabaseInfo> = Vec::new();
    out.push(DatabaseInfo { name });
    out
}

/// A real number is shown as itself whenever it is finite, whatever its
/// sign: the cell is the number exactly when the exponent field of its bit
/// pattern is not all ones, and `NULL` otherwise. A number and its negation
/// are shown alike (both as numbers, or both as `NULL`).
pub proof fn lemma_reals_shown_by_finiteness(b: u64)
    ensures
        ((b >> 52u64) & 0x7ffu64) != 0x7ffu64 ==> spec_row_val(Some(SqlValue::Real(b)))
            == CellView::Real(b),
        ((b >> 52u64) & 0x7ffu64) == 0x7ffu64 ==> spec_row_val(Some(SqlValue::Real(b)))
            == CellView::Null,
        (spec_row_val(Some(SqlValue::Real(b))) is Real) <==> (spec_row_val(
            Some(SqlValue::Real(b ^ 0x8000_0000_0000_0000u64)),
        ) is Real),
{
    let m = b ^ 0x8000_0000_0000_0000u64;
    assert(((m >> 52u64) & 0x7ffu64) == ((b >> 52u64) & 0x7ffu64)) by (bit_vector)
        requires
            m == b ^ 0x8000_0000_0000_0000u64,
    ;
}

/// Every other column value is shown as itself: `NULL` (or a value that
/// cannot be read) as `NULL`, an integer as that integer, text as its
/// characters, a blob as `<blob N bytes>` with its length in decimal.
pub proof fn lemma_cells_show_values(i: i64, bytes: Vec<u8>, n: usize)
    ensures
        spec_row_val(None) == CellView::Null,
        spec_row_val(Some(SqlValue::Null)) == CellView::Null,
        spec_row_val(Some(SqlValue::Integer(i))) == CellView::Integer(i),
        spec_row_val(Some(SqlValue::Text(bytes))) == CellView::Text(spec_utf8_lossy(bytes@)),
        spec_row_val(Some(SqlValue::Blob(n))) == CellView::Text(
            "<blob "@ + decimal(n as nat) + " bytes>"@,
        ),
        crate::text::digits_value(decimal(n as nat)) == n,
{
    crate::numeric_value::lemma_decimal(n as nat);
}

proof fn lemma_last_segment(p: Seq<char>)
    ensures
        forall|i: int| 0 <= i < last_segment(p).len() ==> #[trigger] last_segment(p)[i] != '/',
        last_segment(p).len() <= p.len(),
        p.skip(p.len() - last_segment(p).len()) == last_segment(p),
        (forall|i: int| 0 <= i < p.len() ==> #[trigger] p[i] != '/') ==> last_segment(p) == p,
    decreases p.len(),
{
    if p.len() > 0 && p.last() != '/' {
        let q = p.drop_last();
        lemma_last_segment(q);
        let l = last_segment(p);
        assert(l == last_segment(q).push(p.last()));
        assert(p.skip(p.len() - l.len()) =~= q.skip(q.len() - last_segment(q).len()).push(p.last()));
        if forall|i: int| 0 <= i < p.len() ==> #[trigger] p[i] != '/' {
            assert forall|i: int| 0 <= i < q.len() implies #[trigger] q[i] != '/' by {
                assert(q[i] == p[i]);
            }
            assert(p =~= q.push(p.last()));
        }
    } else {
        assert(p.skip(p.len() as int) =~= Seq::<char>::empty());
    }
}

/// A file name is the last component of the path: it is not empty, holds
/// no `/`, is neither `.` nor `..`, and the path ends with it (after trailing
/// `/` and `/.`); a path without `/` that is not `.` or `..` is its own name.
pub proof fn lemma_file_name_is_last_component(p: Seq<char>)
    ensures
        file_name_of(p) matches Some(n) ==> {
            &&& n.len() > 0
            &&& forall|i: int| 0 <= i < n.len() ==> #[trigger] n[i] != '/'
            &&& n != seq!['.']
            &&& n != seq!['.', '.']
            &&& exists|k: int| 0 <= k <= p.len() - n.len() && #[trigger] p.subrange(k, k + n.len()) == n
        },
        (p.len() > 0 && (forall|i: int| 0 <= i < p.len() ==> #[trigger] p[i] != '/') && p != seq!['.']
            && p != seq!['.', '.']) ==> file_name_of(p) == Some(p),
    decreases p.len(),
{
    if p.len() > 0 {
        lemma_last_segment(p);
        let l = last_segment(p);
        if p.last() == '/' {
            lemma_file_name_is_last_component(p.drop_last());
            if let Some(n) = file_name_of(p) {
                let q = p.drop_last();
                let k = choose|k: int| 0 <= k <= q.len() - n.len() && #[trigger] q.subrange(k, k + n.len()) == n;
                assert(p.subrange(k, k + n.len()) =~= q.subrange(k, k + n.len()));
            }
        } else if l == seq!['.'] {
            if p.len() > 1 {
                lemma_file_name_is_last_component(p.drop_last());
                if let Some(n) = file_name_of(p) {
                    let q = p.drop_last();
                    let k = choose|k: int| 0 <= k <= q.len() - n.len() && #[trigger] q.subrange(k, k + n.len()) == n;
                    assert(p.subrange(k, k + n.len()) =~= q.subrange(k, k + n.len()));
                }
            }
        } else if l != seq!['.', '.'] {
            assert(l.len() > 0) by {
                assert(l == last_segment(p.drop_last()).push(p.last()));
            }
            let k = p.len() - l.len();
            assert(p.subrange(k, k + l.len()) =~= p.skip(k));
        }
    }
}

/// The result columns are the statement's columns, one for one and in
/// order, each named as the statement names it and without a type name.
pub proof fn lemma_columns_follow_names(cols: Seq<ColumnInfo>, names: Seq<String>)
    requires
        columns_named(cols, names),
    ensures
        cols.len() == names.len(),
        forall|i: int| 0 <= i < cols.len() ==> (#[trigger] cols[i]).name@ == names[i]@,
        forall|i: int| 0 <= i < cols.len() ==> (#[trigger] cols[i]).sql_type@.len() == 0,
{
}

} // verus!
