//! The SQL text that the SQLite driver sends. Table and column names are
//! always embedded as double-quoted identifiers with every `"` doubled, so a
//! name can never end the identifier early (see `lemma_quoted_read_back`).
use vstd::prelude::*;
use crate::models::FilterCond;
use crate::text::{
    char_is_whitespace, chars_to_string, decimal, double_quotes, is_blank, is_whitespace, push_decimal, push_quoted,
    push_str, quoted,
};

verus! {

/// Reads the rest of a double-quoted identifier whose opening quote has been
/// consumed: `""` stands for one `"`, a single `"` closes it. Gives the
/// identifier and how many characters were read, closing quote included.
pub open spec fn read_quoted_rest(s: Seq<char>) -> Option<(Seq<char>, nat)>
    decreases s.len(),
{
    if s.len() == 0 {
        None
    } else if s[0] == '"' {
        if s.len() >= 2 && s[1] == '"' {
            match read_quoted_rest(s.skip(2)) {
                Some((t, k)) => Some((seq!['"'] + t, k + 2)),
                None => None,
            }
        } else {
            Some((seq![], 1))
        }
    } else {
        match read_quoted_rest(s.drop_first()) {
            Some((t, k)) => Some((seq![s[0]] + t, k + 1)),
            None => None,
        }
    }
}

/// Reads a double-quoted identifier at the start of `s`, as SQL does:
/// the identifier and the number of characters it takes up.
pub open spec fn read_quoted(s: Seq<char>) -> Option<(Seq<char>, nat)> {
    if s.len() > 0 && s[0] == '"' {
        match read_quoted_rest(s.drop_first()) {
            Some((t, k)) => Some((t, k + 1)),
            None => None,
        }
    } else {
        None
    }
}

proof fn lemma_double_quotes_append(a: Seq<char>, b: Seq<char>)
    ensures
        double_quotes(a + b) == double_quotes(a) + double_quotes(b),
    decreases b.len(),
{
    if b.len() == 0 {
        assert(a + b =~= a);
        assert(double_quotes(a) + double_quotes(b) =~= double_quotes(a));
    } else {
        lemma_double_quotes_append(a, b.drop_last());
        assert((a + b).drop_last() =~= a + b.drop_last());
        assert((a + b).last() == b.last());
        assert(double_quotes(a + b) =~= double_quotes(a) + double_quotes(b));
    }
}

proof fn lemma_read_rest(t: Seq<char>, rest: Seq<char>)
    requires
        rest.len() == 0 || rest[0] != '"',
    ensures
        read_quoted_rest(double_quotes(t) + seq!['"'] + rest) == Some(
            (t, (double_quotes(t).len() + 1) as nat),
        ),
    decreases t.len(),
{
    let s = double_quotes(t) + seq!['"'] + rest;
    if t.len() == 0 {
        assert(double_quotes(t) =~= seq![]);
        assert(s[0] == '"');
        assert(s.len() >= 2 ==> s[1] == rest[0]);
        assert(t =~= seq![]);
    } else {
        let c = t[0];
        let tail = t.drop_first();
        lemma_read_rest(tail, rest);
        assert(t =~= seq![c] + tail);
        lemma_double_quotes_append(seq![c], tail);
        assert(seq![c].drop_last() =~= Seq::<char>::empty());
        assert(double_quotes(Seq::<char>::empty()) =~= Seq::<char>::empty());
        assert(seq![c].last() == c);
        let s_tail = double_quotes(tail) + seq!['"'] + rest;
        if c == '"' {
            assert(double_quotes(seq![c]) =~= seq!['"', '"']);
            assert(s =~= seq!['"', '"'] + s_tail);
            assert(s.skip(2) =~= s_tail);
            assert(seq!['"'] + tail =~= t);
        } else {
            assert(double_quotes(seq![c]) =~= seq![c]);
            assert(s =~= seq![c] + s_tail);
            assert(s.drop_first() =~= s_tail);
            assert(seq![c] + tail =~= t);
        }
    }
}

/// A name embedded as a quoted identifier reads back as exactly that name,
/// and the identifier ends where the quoting ends, whatever follows it (as
/// long as it does not start with another quote).
pub proof fn lemma_quoted_read_back(name: Seq<char>, rest: Seq<char>)
    requires
        rest.len() == 0 || rest[0] != '"',
    ensures
        read_quoted(quoted(name) + rest) == Some((name, quoted(name).len())),
{
    lemma_read_rest(name, rest);
    let s = quoted(name) + rest;
    assert(s.drop_first() =~= double_quotes(name) + seq!['"'] + rest);
}

/// `PRAGMA table_info("<table>")`.
pub open spec fn spec_table_info_sql(table: Seq<char>) -> Seq<char> {
    "PRAGMA table_info("@ + quoted(table) + ")"@
}

/// The statement that lists the columns of a table.
pub fn table_info_sql(table: &str) -> (res: String)
    ensures
        res@ == spec_table_info_sql(table@),
{
    let mut v: Vec<char> = Vec::new();
    push_str(&mut v, "PRAGMA table_info(");
    push_quoted(&mut v, table);
    push_str(&mut v, ")");
    chars_to_string(&v)
}

/// The statement that lists the user tables of a database file, by name.
pub fn list_tables_sql() -> (res: String)
    ensures
        res@ == "SELECT name FROM sqlite_master WHERE type='table' AND name NOT LIKE 'sqlite_%' ORDER BY name"@,
{
    String::from_str(
        "SELECT name FROM sqlite_master WHERE type='table' AND name NOT LIKE 'sqlite_%' ORDER BY name",
    )
}

/// The value that a filter compares with: its value, or the empty string.
pub open spec fn filter_value(f: FilterCond) -> Seq<char> {
    match f.value {
        Some(v) => v@,
        None => seq![],
    }
}

/// The `WHERE` clause of a browsed page: empty without a filter or when the
/// filter value is blank; otherwise the quoted column, `LIKE` when the
/// operator is `LIKE` and `=` for any other operator, and the value between
/// double quotes as it was given.
pub open spec fn spec_where_clause(filter: Option<FilterCond>) -> Seq<char> {
    match filter {
        Some(f) => if is_blank(filter_value(f)) {
            seq![]
        } else {
            " WHERE "@ + quoted(f.column@) + (if f.op@ == "LIKE"@ {
                " LIKE "@
            } else {
                " = "@
            }) + "\""@ + filter_value(f) + "\""@
        },
        None => seq![],
    }
}

/// Whether every character of `s` is whitespace.
pub fn str_is_blank(s: &str) -> (res: bool)
    ensures
        res == is_blank(s@),
{
    for c in it: s.chars()
        invariant
            it.seq() == s@,
            forall|j: int| 0 <= j < it.index() ==> is_whitespace(#[trigger] s@[j]),
    {
        if !char_is_whitespace(c) {
            assert(!is_whitespace(s@[it.index() as int]));
            return false;
        }
    }
    true
}

/// Whether the two strings are equal.
pub fn str_equal(a: &str, b: &str) -> (res: bool)
    ensures
        res == (a@ == b@),
{
    let x = String::from_str(a);
    let y = String::from_str(b);
    x == y
}

/// The `WHERE` clause of a browsed page.
pub fn where_clause(filter: &Option<FilterCond>) -> (res: String)
    ensures
        res@ == spec_where_clause(*filter),
{
    let mut v: Vec<char> = Vec::new();
    match filter {
        Some(f) => {
            let value: &str = match &f.value {
                Some(s) => s.as_str(),
                None => "",
            };
            proof {
                reveal_strlit("");
            }
            assert(value@ == filter_value(*f));
            if !str_is_blank(value) {
                push_str(&mut v, " WHERE ");
                push_quoted(&mut v, f.column.as_str());
                if str_equal(f.op.as_str(), "LIKE") {
                    push_str(&mut v, " LIKE ");
                } else {
                    push_str(&mut v, " = ");
                }
                push_str(&mut v, "\"");
                push_str(&mut v, value);
                push_str(&mut v, "\"");
            }
        },
        None => {},
    }
    let res = chars_to_string(&v);
    assert(res@ =~= spec_where_clause(*filter));
    res
}

/// `SELECT count(*) FROM "<table>"<where>`.
pub open spec fn spec_count_sql(table: Seq<char>, where_sql: Seq<char>) -> Seq<char> {
    "SELECT count(*) FROM "@ + quoted(table) + where_sql
}

/// The statement that counts the rows of a browsed table.
pub fn count_sql(table: &str, where_sql: &str) -> (res: String)
    ensures
        res@ == spec_count_sql(table@, where_sql@),
{
    let mut v: Vec<char> = Vec::new();
    push_str(&mut v, "SELECT count(*) FROM ");
    push_quoted(&mut v, table);
    push_str(&mut v, where_sql);
    chars_to_string(&v)
}

/// The offset of a page: `page * page_size`, or `None` when it overflows.
pub fn page_offset(page: u64, page_size: u64) -> (res: Option<u64>)
    ensures
        res == (if page * page_size <= u64::MAX {
            Some((page * page_size) as u64)
        } else {
            None::<u64>
        }),
{
    page.checked_mul(page_size)
}

/// `SELECT * FROM "<table>"<where> LIMIT <size> OFFSET <page * size>`.
pub open spec fn spec_page_sql(
    table: Seq<char>,
    where_sql: Seq<char>,
    page: nat,
    page_size: nat,
) -> Seq<char> {
    "SELECT * FROM "@ + quoted(table) + where_sql + " LIMIT "@ + decimal(page_size) + " OFFSET "@
        + decimal(page * page_size)
}

/// The statement that reads one page of a browsed table.
pub fn page_sql(table: &str, where_sql: &str, page: u64, page_size: u64) -> (res: String)
    requires
        page * page_size <= u64::MAX,
    ensures
        res@ == spec_page_sql(table@, where_sql@, page as nat, page_size as nat),
{
    let offset = page * page_size;
    let mut v: Vec<char> = Vec::new();
    push_str(&mut v, "SELECT * FROM ");
    push_quoted(&mut v, table);
    push_str(&mut v, where_sql);
    push_str(&mut v, " LIMIT ");
    push_decimal(&mut v, page_size as u128);
    push_str(&mut v, " OFFSET ");
    push_decimal(&mut v, offset as u128);
    chars_to_string(&v)
}

/// The update of one cell, located by `rowid`: the new value is parameter 1,
/// the `rowid` parameter 2; a missing value writes `NULL`.
pub open spec fn spec_update_cell_sql(
    table: Seq<char>,
    column: Seq<char>,
    has_value: bool,
) -> Seq<char> {
    "UPDATE "@ + quoted(table) + " SET "@ + quoted(column) + (if has_value {
        " = ?1 WHERE rowid = ?2"@
    } else {
        " = NULL WHERE rowid = ?2"@
    })
}

/// The statement that updates one cell.
pub fn update_cell_sql(table: &str, column: &str, value: &Option<String>) -> (res: String)
    ensures
        res@ == spec_update_cell_sql(table@, column@, value.is_some()),
{
    let mut v: Vec<char> = Vec::new();
    push_str(&mut v, "UPDATE ");
    push_quoted(&mut v, table);
    push_str(&mut v, " SET ");
    push_quoted(&mut v, column);
    match value {
        Some(_) => push_str(&mut v, " = ?1 WHERE rowid = ?2"),
        None => push_str(&mut v, " = NULL WHERE rowid = ?2"),
    }
    let res = chars_to_string(&v);
    assert(res@ =~= spec_update_cell_sql(table@, column@, value.is_some()));
    res
}

/// A value bound to a statement parameter.
#[derive(Debug)]
pub enum SqlParam {
    Null,
    Integer(i64),
    Text(String),
}

/// The abstract content of a parameter.
pub enum ParamView {
    Null,
    Integer(i64),
    Text(Seq<char>),
}

impl View for SqlParam {
    type V = ParamView;

    open spec fn view(&self) -> ParamView {
        match self {
            SqlParam::Null => ParamView::Null,
            SqlParam::Integer(i) => ParamView::Integer(*i),
            SqlParam::Text(s) => ParamView::Text(s@),
        }
    }
}

/// The parameters of the cell update: parameter 1 is the new value (`NULL`
/// when there is none; the statement then writes `NULL` itself and does not
/// read it), parameter 2 the `rowid`.
pub fn update_cell_params(value: &Option<String>, rowid: i64) -> (res: Vec<SqlParam>)
    ensures
        res@.len() == 2,
        res@[0]@ == (match value {
            Some(v) => ParamView::Text(v@),
            None => ParamView::Null,
        }),
        res@[1]@ == ParamView::Integer(rowid),
{
    let first = match value {
        Some(v) => SqlParam::Text(v.clone()),
        None => SqlParam::Null,
    };
    let mut out: Vec<SqlParam> = Vec::new();
    out.push(first);
    out.push(SqlParam::Integer(rowid));
    out
}

/// `DELETE FROM "<table>" WHERE rowid = ?1`.
pub open spec fn spec_delete_row_sql(table: Seq<char>) -> Seq<char> {
    "DELETE FROM "@ + quoted(table) + " WHERE rowid = ?1"@
}

/// The statement that deletes one row, located by `rowid`.
pub fn delete_row_sql(table: &str) -> (res: String)
    ensures
        res@ == spec_delete_row_sql(table@),
{
    let mut v: Vec<char> = Vec::new();
    push_str(&mut v, "DELETE FROM ");
    push_quoted(&mut v, table);
    push_str(&mut v, " WHERE rowid = ?1");
    chars_to_string(&v)
}

/// `INSERT INTO "<table>" DEFAULT VALUES`.
pub open spec fn spec_insert_row_sql(table: Seq<char>) -> Seq<char> {
    "INSERT INTO "@ + quoted(table) + " DEFAULT VALUES"@
}

/// The statement that adds a row of default values.
pub fn insert_row_sql(table: &str) -> (res: String)
    ensures
        res@ == spec_insert_row_sql(table@),
{
    let mut v: Vec<char> = Vec::new();
    push_str(&mut v, "INSERT INTO ");
    push_quoted(&mut v, table);
    push_str(&mut v, " DEFAULT VALUES");
    chars_to_string(&v)
}

/// The id of an inserted row as the client receives it: the low 32 bits of
/// the `rowid`, as a signed integer.
pub fn rowid_to_i32(rowid: i64) -> (res: i32)
    ensures
        res == rowid as i32,
{
    rowid as i32
}

/// `SELECT * FROM "<table>"`.
pub open spec fn spec_select_all_sql(table: Seq<char>) -> Seq<char> {
    "SELECT * FROM "@ + quoted(table)
}

/// The statement that reads a whole table.
pub fn select_all_sql(table: &str) -> (res: String)
    ensures
        res@ == spec_select_all_sql(table@),
{
    let mut v: Vec<char> = Vec::new();
    push_str(&mut v, "SELECT * FROM ");
    push_quoted(&mut v, table);
    chars_to_string(&v)
}

/// The statement starts with `prefix` and then names `table` as a quoted
/// identifier that reads back as exactly `table`.
pub open spec fn names_table(sql: Seq<char>, prefix: Seq<char>, table: Seq<char>) -> bool {
    &&& sql.take(prefix.len() as int) == prefix
    &&& read_quoted(sql.skip(prefix.len() as int)) == Some((table, quoted(table).len()))
}

proof fn lemma_names_table(prefix: Seq<char>, table: Seq<char>, rest: Seq<char>)
    requires
        rest.len() == 0 || rest[0] != '"',
    ensures
        names_table(prefix + quoted(table) + rest, prefix, table),
{
    lemma_quoted_read_back(table, rest);
    let sql = prefix + quoted(table) + rest;
    assert(sql.take(prefix.len() as int) =~= prefix);
    assert(sql.skip(prefix.len() as int) =~= quoted(table) + rest);
}

/// Every statement that the driver builds for a table names that table, and
/// no other, right after its keyword: whatever characters the name holds, it
/// cannot end the identifier early. For the browsing statements this holds
/// with the `WHERE` clause that `where_clause` builds.
pub proof fn lemma_statements_name_their_table(
    table: Seq<char>,
    column: Seq<char>,
    has_value: bool,
    filter: Option<FilterCond>,
    page: nat,
    page_size: nat,
)
    ensures
        names_table(spec_table_info_sql(table), "PRAGMA table_info("@, table),
        names_table(
            spec_count_sql(table, spec_where_clause(filter)),
            "SELECT count(*) FROM "@,
            table,
        ),
        names_table(
            spec_page_sql(table, spec_where_clause(filter), page, page_size),
            "SELECT * FROM "@,
            table,
        ),
        names_table(spec_update_cell_sql(table, column, has_value), "UPDATE "@, table),
        names_table(spec_delete_row_sql(table), "DELETE FROM "@, table),
        names_table(spec_insert_row_sql(table), "INSERT INTO "@, table),
        names_table(spec_select_all_sql(table), "SELECT * FROM "@, table),
{
    reveal_strlit(")");
    reveal_strlit(" WHERE ");
    reveal_strlit(" LIMIT ");
    reveal_strlit(" SET ");
    reveal_strlit(" WHERE rowid = ?1");
    reveal_strlit(" DEFAULT VALUES");
    let w = spec_where_clause(filter);
    assert(w.len() == 0 || w[0] == ' ') by {
        if w.len() != 0 {
            let f = filter.unwrap();
            assert(w == " WHERE "@ + quoted(f.column@) + (if f.op@ == "LIKE"@ {
                " LIKE "@
            } else {
                " = "@
            }) + "\""@ + filter_value(f) + "\""@);
        }
    }
    lemma_names_table("PRAGMA table_info("@, table, ")"@);
    assert(spec_table_info_sql(table) == "PRAGMA table_info("@ + quoted(table) + ")"@);

    lemma_names_table("SELECT count(*) FROM "@, table, w);

    let page_rest = w + " LIMIT "@ + decimal(page_size) + " OFFSET "@ + decimal(page * page_size);
    assert(page_rest.len() == 0 || page_rest[0] != '"') by {
        if w.len() == 0 {
            assert(page_rest[0] == ' ');
        } else {
            assert(page_rest[0] == w[0]);
        }
    }
    lemma_names_table("SELECT * FROM "@, table, page_rest);
    assert(spec_page_sql(table, w, page, page_size) =~= "SELECT * FROM "@ + quoted(table)
        + page_rest);

    let update_rest = " SET "@ + quoted(column) + (if has_value {
        " = ?1 WHERE rowid = ?2"@
    } else {
        " = NULL WHERE rowid = ?2"@
    });
    lemma_names_table("UPDATE "@, table, update_rest);
    assert(spec_update_cell_sql(table, column, has_value) =~= "UPDATE "@ + quoted(table)
        + update_rest);

    lemma_names_table("DELETE FROM "@, table, " WHERE rowid = ?1"@);
    lemma_names_table("INSERT INTO "@, table, " DEFAULT VALUES"@);
    lemma_names_table("SELECT * FROM "@, table, Seq::<char>::empty());
    assert(spec_select_all_sql(table) =~= "SELECT * FROM "@ + quoted(table) + Seq::<char>::empty());
}

// ---------------------------------------------------------------------------
// What browsing a table does.
/// A page shows the rows that the count counts: after its keyword the page
/// statement is exactly the count statement after its keyword (the quoted
/// table and the same `WHERE` clause), followed by `LIMIT size` and
/// `OFFSET page * size`. In particular the `WHERE` clause stands right
/// after the quoted table name.
pub proof fn lemma_page_filters_like_count(
    table: Seq<char>,
    where_sql: Seq<char>,
    page: nat,
    page_size: nat,
)
    ensures
        spec_page_sql(table, where_sql, page, page_size) == "SELECT * FROM "@ + spec_count_sql(
            table,
            where_sql,
        ).skip(21) + " LIMIT "@ + decimal(page_size) + " OFFSET "@ + decimal(page * page_size),
        spec_page_sql(table, where_sql, page, page_size).subrange(
            14 + quoted(table).len() as int,
            14 + quoted(table).len() as int + where_sql.len() as int,
        ) == where_sql,
        spec_page_sql(table, where_sql, page, page_size).subrange(0, 14 + quoted(table).len() as int)
            == "SELECT * FROM "@ + quoted(table),
        spec_count_sql(table, where_sql).skip(21 + quoted(table).len() as int) == where_sql,
        spec_count_sql(table, where_sql).take(21 + quoted(table).len() as int) == "SELECT count(*) FROM "@
            + quoted(table),
{
    reveal_strlit("SELECT count(*) FROM ");
    reveal_strlit("SELECT * FROM ");
    let c = spec_count_sql(table, where_sql);
    assert(c.skip(21) =~= quoted(table) + where_sql);
    assert(c.skip(21 + quoted(table).len() as int) =~= where_sql);
    assert(c.take(21 + quoted(table).len() as int) =~= "SELECT count(*) FROM "@ + quoted(table));
    let p = spec_page_sql(table, where_sql, page, page_size);
    assert(p =~= "SELECT * FROM "@ + quoted(table) + where_sql + (" LIMIT "@ + decimal(page_size)
        + " OFFSET "@ + decimal(page * page_size)));
    assert(p.subrange(14 + quoted(table).len() as int, 14 + quoted(table).len() as int + where_sql.len() as int)
        =~= where_sql);
    assert(p.subrange(0, 14 + quoted(table).len() as int) =~= "SELECT * FROM "@ + quoted(table));
}

/// The value a filter compares with, as given (empty when there is none).
pub open spec fn given_value(f: FilterCond) -> Seq<char> {
    match f.value {
        Some(v) => v@,
        None => Seq::<char>::empty(),
    }
}

/// A filter restricts the rows exactly when its value holds something other
/// than whitespace: the clause is empty exactly when every character of the
/// value (or of the empty string, for no value) is whitespace. An empty or
/// missing value is the same as no filter at all. A clause that is not empty
/// names the filtered column and holds the value between double quotes.
pub proof fn lemma_blank_filter_is_no_filter(f: FilterCond)
    ensures
        spec_where_clause(Some(f)).len() == 0 <==> (forall|i: int|
            0 <= i < given_value(f).len() ==> is_whitespace(#[trigger] given_value(f)[i])),
        given_value(f).len() == 0 ==> spec_where_clause(Some(f)) == spec_where_clause(None),
        spec_where_clause(None).len() == 0,
        spec_where_clause(Some(f)).len() != 0 ==> spec_where_clause(Some(f)) == " WHERE "@ + quoted(
            f.column@,
        ) + (if f.op@ == "LIKE"@ {
            " LIKE "@
        } else {
            " = "@
        }) + "\""@ + given_value(f) + "\""@,
{
    reveal_strlit(" WHERE ");
    let w = spec_where_clause(Some(f));
    assert(filter_value(f) == given_value(f));
    if !is_blank(filter_value(f)) {
        assert(w.len() >= 7);
    }
}

/// The cell update writes to exactly the given column: after `UPDATE`,
/// the table and ` SET `, the column reads back as exactly its name.
pub proof fn lemma_update_names_its_column(table: Seq<char>, column: Seq<char>, has_value: bool)
    ensures
        read_quoted(spec_update_cell_sql(table, column, has_value).skip(
            12 + quoted(table).len() as int,
        )) == Some((column, quoted(column).len())),
{
    reveal_strlit("UPDATE ");
    reveal_strlit(" SET ");
    reveal_strlit(" = ?1 WHERE rowid = ?2");
    reveal_strlit(" = NULL WHERE rowid = ?2");
    let rest: Seq<char> = if has_value {
        " = ?1 WHERE rowid = ?2"@
    } else {
        " = NULL WHERE rowid = ?2"@
    };
    lemma_quoted_read_back(column, rest);
    assert(spec_update_cell_sql(table, column, has_value).skip(12 + quoted(table).len() as int)
        =~= quoted(column) + rest);
}

} // verus!
